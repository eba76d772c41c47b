//! Identifiers of the responses that the proxy makes up.

use crate::text::{from_chars, to_chars};
use vstd::prelude::*;
use vstd::string::StringExecFns;

verus! {

broadcast use vstd::string::group_string_axioms;

/// A lower-case hexadecimal digit.
pub open spec fn hex_digit(c: char) -> bool {
    ('0' <= c <= '9') || ('a' <= c <= 'f')
}

/// The places of the hyphens in the text of a UUID.
pub open spec fn hyphen_at(i: int) -> bool {
    i == 8 || i == 13 || i == 18 || i == 23
}

/// A digit that tells the variant of a random UUID.
pub open spec fn variant_digit(c: char) -> bool {
    c == '8' || c == '9' || c == 'a' || c == 'b'
}

/// The text of a random (version 4) UUID.
pub open spec fn uuid_text(s: Seq<char>) -> bool {
    &&& s.len() == 36
    &&& forall|i: int|
        0 <= i < 36 ==> if hyphen_at(i) {
            #[trigger] s[i] == '-'
        } else {
            hex_digit(s[i])
        }
    &&& s[14] == '4'
    &&& variant_digit(s[19])
}

/// `Uuid::new_v4` and its `to_string`: a UUID of version 4, made of random bits, in lower-case
/// hexadecimal digits with hyphens.
#[verifier::external_body]
fn new_uuid() -> (r: String)
    ensures
        uuid_text(r@),
{
    uuid::Uuid::new_v4().to_string()
}

/// The number of random digits in an identifier.
pub const ID_DIGITS: usize = 24;

/// An identifier: the prefix, an underscore, and random hexadecimal digits, of which the one
/// at place twelve tells the version of the UUID that they come from, and the one at place
/// sixteen its variant.
pub open spec fn is_id(prefix: Seq<char>, id: Seq<char>) -> bool {
    &&& id.len() == prefix.len() + 1 + ID_DIGITS
    &&& id.take(prefix.len() as int) == prefix
    &&& id[prefix.len() as int] == '_'
    &&& forall|i: int| prefix.len() < i < id.len() ==> hex_digit(#[trigger] id[i])
    &&& id[(prefix.len() + 13) as int] == '4'
    &&& variant_digit(id[(prefix.len() + 17) as int])
}

/// The characters of a text without its hyphens.
pub open spec fn digits_of(text: Seq<char>) -> Seq<char>
    decreases text.len(),
{
    if text.len() == 0 {
        Seq::empty()
    } else if text.last() == '-' {
        digits_of(text.drop_last())
    } else {
        digits_of(text.drop_last()).push(text.last())
    }
}

/// The identifier that a UUID makes.
pub open spec fn id_text(prefix: Seq<char>, uuid: Seq<char>) -> Seq<char> {
    prefix + "_"@ + digits_of(uuid).take(ID_DIGITS as int)
}

/// The number of hyphens before place `i` of the text of a UUID.
spec fn hyphens_before(i: int) -> int {
    (if i > 8 { 1int } else { 0 }) + (if i > 13 { 1int } else { 0 }) + (if i > 18 {
        1int
    } else {
        0
    }) + (if i > 23 { 1int } else { 0 })
}

/// What the digits of a UUID are.
proof fn lemma_digits(uuid: Seq<char>, i: int)
    requires
        uuid_text(uuid),
        0 <= i <= 36,
    ensures
        digits_of(uuid.take(i)).len() == i - hyphens_before(i),
        forall|j: int|
            0 <= j < digits_of(uuid.take(i)).len() ==> hex_digit(
                #[trigger] digits_of(uuid.take(i))[j],
            ),
        i > 14 ==> digits_of(uuid.take(i))[12] == '4',
        i > 19 ==> variant_digit(digits_of(uuid.take(i))[16]),
    decreases i,
{
    if i > 0 {
        lemma_digits(uuid, i - 1);
        assert(uuid.take(i).drop_last() =~= uuid.take(i - 1));
        assert(if hyphen_at(i - 1) {
            uuid[i - 1] == '-'
        } else {
            hex_digit(uuid[i - 1])
        });
    }
}

/// Makes the identifier of a UUID.
pub fn id_of(prefix: &str, uuid: &str) -> (r: String)
    requires
        uuid_text(uuid@),
    ensures
        r@ == id_text(prefix@, uuid@),
        is_id(prefix@, r@),
{
    let chars: Vec<char> = to_chars(uuid);
    let mut digits: Vec<char> = Vec::new();
    let mut i: usize = 0;
    assert(uuid@.take(0) =~= Seq::empty());
    while i < chars.len()
        invariant
            chars@ == uuid@,
            i <= uuid@.len(),
            digits@ == digits_of(uuid@.take(i as int)),
        decreases uuid@.len() - i,
    {
        assert(uuid@.take(i + 1).drop_last() =~= uuid@.take(i as int));
        if chars[i] != '-' {
            digits.push(chars[i]);
        }
        i += 1;
    }
    proof {
        assert(uuid@.take(36) =~= uuid@);
        lemma_digits(uuid@, 36);
        reveal_strlit("_");
    }
    let mut id = prefix.to_owned();
    id.append("_");
    id.append(from_chars(&digits, 0, ID_DIGITS).as_str());
    proof {
        let n = prefix@.len() as int;
        assert(digits@.subrange(0, ID_DIGITS as int) =~= digits@.take(ID_DIGITS as int));
        assert(id@.take(n) =~= prefix@);
        assert forall|k: int| n < k < id@.len() implies hex_digit(#[trigger] id@[k]) by {
            assert(id@[k] == digits@[k - n - 1]);
        }
    }
    id
}

/// Makes up an identifier, from a UUID that is drawn for it.
pub fn make_id(prefix: &str) -> (r: String)
    ensures
        is_id(prefix@, r@),
        exists|uuid: Seq<char>| uuid_text(uuid) && r@ == #[trigger] id_text(prefix@, uuid),
{
    let uuid = new_uuid();
    id_of(prefix, uuid.as_str())
}

/// An identifier is its prefix, an underscore and twenty-four lower-case hexadecimal digits.
pub proof fn law_id(prefix: Seq<char>, id: Seq<char>, i: int)
    requires
        is_id(prefix, id),
    ensures
        id.len() == prefix.len() + 25,
        0 <= i < prefix.len() ==> id[i] == prefix[i],
        id[prefix.len() as int] == '_',
        prefix.len() < i < id.len() ==> ('0' <= id[i] <= '9' || 'a' <= id[i] <= 'f'),
{
    if 0 <= i < prefix.len() {
        assert(id.take(prefix.len() as int)[i] == id[i]);
    }
    if prefix.len() < i < id.len() {
        assert(hex_digit(id[i]));
    }
}

}
