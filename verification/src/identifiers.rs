//! UUIDs: the names under which downloads are kept in quarantine.
use crate::text;
use vstd::prelude::*;

verus! {

/// A hexadecimal digit.
pub open spec fn hexadecimal_char(c: char) -> bool {
    '0' <= c <= '9' || 'a' <= c <= 'f' || 'A' <= c <= 'F'
}

/// Five groups of hexadecimal digits with hyphens in between.
pub open spec fn hyphenated(s: Seq<char>) -> bool {
    &&& s.len() == 36
    &&& forall|i: int|
        0 <= i < 36 ==> if i == 8 || i == 13 || i == 18 || i == 23 {
            #[trigger] s[i] == '-'
        } else {
            hexadecimal_char(s[i])
        }
}

/// The text of a UUID: in plain digits, with hyphens, in braces, or as a URN.
pub open spec fn uuid_text(s: Seq<char>) -> bool {
    ||| s.len() == 32 && forall|i: int| 0 <= i < 32 ==> hexadecimal_char(#[trigger] s[i])
    ||| hyphenated(s)
    ||| s.len() == 38 && s[0] == '{' && s[37] == '}' && hyphenated(s.subrange(1, 37))
    ||| s.len() == 45 && text::same_ignoring_ascii_case(s.take(9), "urn:uuid:"@) && hyphenated(
        s.skip(9),
    )
}

/// `uuid::Uuid::parse_str` accepts the four ways to write a UUID, and nothing
/// else.
#[verifier::external_body]
pub(crate) fn is_uuid(s: &str) -> (r: bool)
    ensures
        r == uuid_text(s@),
{
    uuid::Uuid::parse_str(s).is_ok()
}

/// The text of a random UUID: small letters, and the digits that tell how it
/// was made.
pub open spec fn random_uuid_text(s: Seq<char>) -> bool {
    &&& hyphenated(s)
    &&& forall|i: int| 0 <= i < 36 ==> !('A' <= #[trigger] s[i] <= 'F')
    &&& s[14] == '4'
    &&& s[19] == '8' || s[19] == '9' || s[19] == 'a' || s[19] == 'b'
}

/// `uuid::Uuid::new_v4`, written out, is a random UUID with hyphens and in
/// small letters. Which one is left open. The call panics on a system that has
/// no random numbers to give.
#[verifier::external_body]
pub(crate) fn new_id() -> (r: String)
    ensures
        random_uuid_text(r@),
{
    uuid::Uuid::new_v4().to_string()
}

/// No dot and no space stands in a UUID.
pub proof fn lemma_uuid_chars(s: Seq<char>)
    requires
        uuid_text(s),
    ensures
        forall|i: int| 0 <= i < s.len() ==> #[trigger] s[i] != '.' && s[i] != ' ',
{
    assert forall|i: int| 0 <= i < s.len() implies #[trigger] s[i] != '.' && s[i] != ' ' by {
        if s.len() == 32 {
            assert(hexadecimal_char(s[i]));
        } else if hyphenated(s) {
            assert(s[i] == '-' || hexadecimal_char(s[i]));
        } else if s.len() == 38 {
            if 0 < i < 37 {
                assert(s.subrange(1, 37)[i - 1] == '-' || hexadecimal_char(
                    s.subrange(1, 37)[i - 1],
                ));
            }
        } else if i < 9 {
            reveal_strlit("urn:uuid:");
            assert(text::ascii_lowercase(s.take(9))[i] == text::ascii_lower(s[i]));
            assert(text::ascii_lowercase("urn:uuid:"@)[i] == text::ascii_lower("urn:uuid:"@[i]));
        } else {
            assert(s.skip(9)[i - 9] == '-' || hexadecimal_char(s.skip(9)[i - 9]));
        }
    }
}

} // verus!
