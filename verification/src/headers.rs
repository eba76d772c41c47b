//! HTTP header fields: which of them are passed on, and what they say.
//!
//! The fields of a message are held in a `http::HeaderMap`. Names of fields are in lower case;
//! a name may have several values.

use crate::text::{
    has_text, lowered, occurs, opt_text, stands_at, str_eq, to_ascii_lower,
};
use vstd::prelude::*;
use vstd::utf8::encode_utf8;

verus! {

broadcast use vstd::string::group_string_axioms;

// ── http::HeaderMap ────────────────────────────────────────────────────────

/// The header maps of `http`.
#[verifier::external_type_specification]
#[verifier::external_body]
#[verifier::reject_recursive_types(T)]
pub struct ExHeaderMap<T>(http::HeaderMap<T>);

/// The names of header fields of `http`.
#[verifier::external_type_specification]
#[verifier::external_body]
pub struct ExHeaderName(http::HeaderName);

/// The values of header fields of `http`.
#[verifier::external_type_specification]
#[verifier::external_body]
pub struct ExHeaderValue(http::HeaderValue);

/// What a header map holds: for each name its values, in the order in which they were added.
pub uninterp spec fn header_fields(headers: http::HeaderMap) -> Map<Seq<char>, Seq<Seq<u8>>>;

/// The characters of a name.
pub uninterp spec fn name_text(name: http::HeaderName) -> Seq<char>;

/// The bytes of a value.
pub uninterp spec fn value_bytes(value: http::HeaderValue) -> Seq<u8>;

/// No header fields.
pub open spec fn no_fields() -> Map<Seq<char>, Seq<Seq<u8>>> {
    Map::empty()
}

/// The names and values of a list.
pub open spec fn listed(list: Seq<(http::HeaderName, http::HeaderValue)>) -> Seq<
    (Seq<char>, Seq<u8>),
> {
    list.map_values(
        |field: (http::HeaderName, http::HeaderValue)| (name_text(field.0), value_bytes(field.1)),
    )
}

/// The values of each name of a list, in their order.
pub open spec fn grouped(list: Seq<(Seq<char>, Seq<u8>)>) -> Map<Seq<char>, Seq<Seq<u8>>>
    decreases list.len(),
{
    if list.len() == 0 {
        no_fields()
    } else {
        let before = grouped(list.drop_last());
        let (name, value) = list.last();
        if before.contains_key(name) {
            before.insert(name, before[name].push(value))
        } else {
            before.insert(name, seq![value])
        }
    }
}

/// The first value of a name.
pub open spec fn first_of(fields: Map<Seq<char>, Seq<Seq<u8>>>, name: Seq<char>) -> Option<
    Seq<u8>,
> {
    if fields.contains_key(name) {
        Some(fields[name][0])
    } else {
        None
    }
}

/// The bytes of an optional value.
pub open spec fn opt_value(value: Option<http::HeaderValue>) -> Option<Seq<u8>> {
    match value {
        Some(v) => Some(value_bytes(v)),
        None => None,
    }
}

/// A name made of lower-case letters and hyphens.
pub open spec fn simple_name(name: Seq<char>) -> bool {
    &&& 0 < name.len() <= 64
    &&& forall|i: int|
        0 <= i < name.len() ==> ('a' <= #[trigger] name[i] <= 'z' || name[i] == '-')
}

/// A text made of visible ASCII characters and spaces.
pub open spec fn simple_text(text: Seq<char>) -> bool {
    forall|i: int| 0 <= i < text.len() ==> ' ' <= #[trigger] text[i] <= '~'
}

/// How many names a header map can hold.
pub const MAX_NAMES: usize = 24576;

/// Whether many names of a header map have hashes that lie close together, which the map remedies
/// before it takes a further field.
pub uninterp spec fn crowded(headers: http::HeaderMap) -> bool;

/// `HeaderMap::new`: no fields.
#[verifier::external_body]
fn new_headers() -> (r: http::HeaderMap)
    ensures
        header_fields(r) == no_fields(),
{
    http::HeaderMap::new()
}

/// `HeaderMap::iter`, each name and value cloned: every name comes once for each of its values,
/// in the order of the values. The order of the names is left open. There are at most
/// [`MAX_NAMES`] names, since every way to add one is refused when a table of the largest size,
/// 32768 places, is filled to three quarters.
#[verifier::external_body]
fn header_list(headers: &http::HeaderMap) -> (r: Vec<(http::HeaderName, http::HeaderValue)>)
    ensures
        grouped(listed(r@)) == header_fields(*headers),
        grouped(listed(r@)).dom().len() <= MAX_NAMES,
{
    headers.iter().map(|(name, value)| (name.clone(), value.clone())).collect()
}

/// `HeaderMap::try_insert`: the value becomes the only one of the name. This fails, and leaves
/// the fields as they are, only if the map is full or would have to grow too large because it is
/// crowded. A crowded map gives up on growing when it fails, and is crowded no more.
#[verifier::external_body]
fn insert_header(
    headers: &mut http::HeaderMap,
    name: &http::HeaderName,
    value: &http::HeaderValue,
) -> (r: bool)
    ensures
        r ==> header_fields(*final(headers)) == header_fields(*old(headers)).insert(
            name_text(*name),
            seq![value_bytes(*value)],
        ),
        !r ==> header_fields(*final(headers)) == header_fields(*old(headers)),
        !r ==> !crowded(*final(headers)),
        !r ==> crowded(*old(headers)) || header_fields(*old(headers)).dom().len() >= MAX_NAMES,
{
    headers.try_insert(name, value.clone()).is_ok()
}

/// `HeaderMap::remove`: the name and all its values leave the map. How crowded it is stays as it
/// is.
#[verifier::external_body]
fn remove_header(headers: &mut http::HeaderMap, name: &http::HeaderName)
    ensures
        header_fields(*final(headers)) == header_fields(*old(headers)).remove(name_text(*name)),
        crowded(*final(headers)) == crowded(*old(headers)),
{
    headers.remove(name);
}

/// `HeaderMap::get`, cloned: the first value of a name.
#[verifier::external_body]
fn first_value(headers: &http::HeaderMap, name: &str) -> (r: Option<http::HeaderValue>)
    requires
        simple_name(name@),
    ensures
        opt_value(r) == first_of(header_fields(*headers), name@),
{
    headers.get(name).cloned()
}

/// `HeaderName::as_str`: the characters of a name.
#[verifier::external_body]
fn name_string(name: &http::HeaderName) -> (r: String)
    ensures
        r@ == name_text(*name),
{
    name.as_str().to_string()
}

/// `HeaderValue::to_str`: the text of a value, if all its bytes are visible.
#[verifier::external_body]
fn value_string(value: &http::HeaderValue) -> (r: Option<String>)
    ensures
        opt_text(r) == value_text(value_bytes(*value)),
{
    value.to_str().ok().map(|text| text.to_string())
}

/// `HeaderName::from_bytes`: the name with these characters, which are valid in it.
#[verifier::external_body]
fn make_name(text: &str) -> (r: http::HeaderName)
    requires
        simple_name(text@),
    ensures
        name_text(r) == text@,
{
    http::HeaderName::from_bytes(text.as_bytes()).unwrap()
}

/// `HeaderValue::from_str`: the value with these characters, which are valid in it.
#[verifier::external_body]
fn make_value(text: &str) -> (r: http::HeaderValue)
    requires
        simple_text(text@),
    ensures
        value_bytes(r) == encode_utf8(text@),
{
    http::HeaderValue::from_str(text).unwrap()
}

// ── Fields that are passed on ──────────────────────────────────────────────

/// The fields whose names, in lower case, `dropped` does not hold, each with the last value
/// that it has.
pub open spec fn filtered(
    fields: Map<Seq<char>, Seq<Seq<u8>>>,
    dropped: spec_fn(Seq<char>) -> bool,
) -> Map<Seq<char>, Seq<Seq<u8>>> {
    Map::new(
        |name: Seq<char>| fields.contains_key(name) && !dropped(lowered(name)),
        |name: Seq<char>| seq![fields[name].last()],
    )
}

/// The fields of a request that concern the connection and are not forwarded.
pub open spec fn hop_by_hop_request(name: Seq<char>) -> bool {
    ||| name == "host"@
    ||| name == "connection"@
    ||| name == "content-length"@
    ||| name == "transfer-encoding"@
    ||| name == "keep-alive"@
    ||| name == "proxy-authorization"@
    ||| name == "te"@
    ||| name == "trailer"@
    ||| name == "upgrade"@
}

/// The fields of a response that concern the connection and are not passed on.
pub open spec fn hop_by_hop_response(name: Seq<char>) -> bool {
    ||| name == "content-length"@
    ||| name == "content-encoding"@
    ||| name == "transfer-encoding"@
    ||| name == "connection"@
    ||| name == "keep-alive"@
}

/// The fields of a request that are forwarded.
pub open spec fn forwarded(fields: Map<Seq<char>, Seq<Seq<u8>>>) -> Map<
    Seq<char>,
    Seq<Seq<u8>>,
> {
    filtered(fields, |name: Seq<char>| hop_by_hop_request(name))
}

/// The fields of a response that are passed on.
pub open spec fn passed_on(fields: Map<Seq<char>, Seq<Seq<u8>>>) -> Map<
    Seq<char>,
    Seq<Seq<u8>>,
> {
    filtered(fields, |name: Seq<char>| hop_by_hop_response(name))
}

/// A dropped name has no field among those that are kept; any other name has exactly one value
/// there, the last that it had.
pub proof fn law_kept(
    fields: Map<Seq<char>, Seq<Seq<u8>>>,
    dropped: spec_fn(Seq<char>) -> bool,
    name: Seq<char>,
)
    ensures
        filtered(fields, dropped).contains_key(name) <==> fields.contains_key(name) && !dropped(
            lowered(name),
        ),
        filtered(fields, dropped).contains_key(name) ==> filtered(fields, dropped)[name] == seq![
            fields[name].last(),
        ],
{
}

/// Fields that were forwarded are forwarded again as they are, and fields that were passed on are
/// passed on again as they are.
pub proof fn law_kept_again(fields: Map<Seq<char>, Seq<Seq<u8>>>)
    ensures
        forwarded(forwarded(fields)) == forwarded(fields),
        passed_on(passed_on(fields)) == passed_on(fields),
{
    assert(forwarded(forwarded(fields)) =~= forwarded(fields));
    assert(passed_on(passed_on(fields)) =~= passed_on(fields));
}

/// The credentials of the client for the upstream are forwarded, and those for a proxy are not.
pub proof fn law_authorization_stays(fields: Map<Seq<char>, Seq<Seq<u8>>>)
    ensures
        forwarded(fields).contains_key("authorization"@) <==> fields.contains_key(
            "authorization"@,
        ),
        !forwarded(fields).contains_key("proxy-authorization"@),
{
    reveal_strlit("authorization");
    reveal_strlit("proxy-authorization");
    reveal_strlit("host");
    reveal_strlit("connection");
    reveal_strlit("content-length");
    reveal_strlit("transfer-encoding");
    reveal_strlit("keep-alive");
    reveal_strlit("te");
    reveal_strlit("trailer");
    reveal_strlit("upgrade");
    assert(lowered("authorization"@) =~= "authorization"@);
    assert(lowered("proxy-authorization"@) =~= "proxy-authorization"@);
    assert("authorization"@.len() == 13);
    assert("host"@.len() == 4);
    assert("connection"@.len() == 10);
    assert("content-length"@.len() == 14);
    assert("transfer-encoding"@.len() == 17);
    assert("keep-alive"@.len() == 10);
    assert("proxy-authorization"@.len() == 19);
    assert("te"@.len() == 2);
    assert("trailer"@.len() == 7);
    assert("upgrade"@.len() == 7);
}

/// Whether a name is that of a field of a request that is not forwarded.
fn drops_from_request(name: &str) -> (r: bool)
    ensures
        r == hop_by_hop_request(name@),
{
    str_eq(name, "host") || str_eq(name, "connection") || str_eq(name, "content-length") || str_eq(
        name,
        "transfer-encoding",
    ) || str_eq(name, "keep-alive") || str_eq(name, "proxy-authorization") || str_eq(name, "te")
        || str_eq(name, "trailer") || str_eq(name, "upgrade")
}

/// Whether a name is that of a field of a response that is not passed on.
fn drops_from_response(name: &str) -> (r: bool)
    ensures
        r == hop_by_hop_response(name@),
{
    str_eq(name, "content-length") || str_eq(name, "content-encoding") || str_eq(
        name,
        "transfer-encoding",
    ) || str_eq(name, "connection") || str_eq(name, "keep-alive")
}

/// The fields of a request that are forwarded to the upstream.
pub fn build_forward_headers(headers: &http::HeaderMap) -> (r: http::HeaderMap)
    ensures
        header_fields(r) == forwarded(header_fields(*headers)),
{
    filter_headers(headers, true)
}

/// The fields of a response that are passed on to the client.
pub fn strip_response_hop_by_hop(headers: &http::HeaderMap) -> (r: http::HeaderMap)
    ensures
        header_fields(r) == passed_on(header_fields(*headers)),
{
    filter_headers(headers, false)
}

/// The names of a list are finitely many, have at least one value each, and stay when the list
/// grows.
proof fn lemma_grouped(list: Seq<(Seq<char>, Seq<u8>)>, i: int)
    requires
        0 <= i <= list.len(),
    ensures
        grouped(list).dom().finite(),
        grouped(list.take(i)).dom().subset_of(grouped(list).dom()),
        forall|name: Seq<char>| #[trigger]
            grouped(list).contains_key(name) ==> grouped(list)[name].len() > 0,
    decreases list.len(),
{
    if list.len() > 0 {
        if i < list.len() {
            lemma_grouped(list.drop_last(), i);
            assert(list.drop_last().take(i) =~= list.take(i));
        } else {
            lemma_grouped(list.drop_last(), 0);
            assert(list.take(i) =~= list);
        }
    } else {
        assert(list.take(i) =~= list);
    }
}

/// Makes the value the only one of the name, in a map that holds the name or has room for it.
fn put_header(headers: &mut http::HeaderMap, name: &http::HeaderName, value: &http::HeaderValue)
    requires
        header_fields(*old(headers)).dom().finite(),
        header_fields(*old(headers)).insert(name_text(*name), seq![value_bytes(*value)]).dom().len()
            <= MAX_NAMES,
    ensures
        header_fields(*final(headers)) == header_fields(*old(headers)).insert(
            name_text(*name),
            seq![value_bytes(*value)],
        ),
{
    let ghost fields = header_fields(*headers);
    if !insert_header(headers, name, value) {
        // The map is not crowded now; without the old values it is not full either.
        remove_header(headers, name);
        insert_header(headers, name, value);
        assert(fields.remove(name_text(*name)).insert(name_text(*name), seq![value_bytes(*value)])
            =~= fields.insert(name_text(*name), seq![value_bytes(*value)]));
    }
}

/// The fields that a message of one direction keeps.
fn filter_headers(headers: &http::HeaderMap, request: bool) -> (r: http::HeaderMap)
    ensures
        header_fields(r) == if request {
            forwarded(header_fields(*headers))
        } else {
            passed_on(header_fields(*headers))
        },
{
    let ghost dropped = if request {
        |n: Seq<char>| hop_by_hop_request(n)
    } else {
        |n: Seq<char>| hop_by_hop_response(n)
    };
    let list = header_list(headers);
    let ghost all = listed(list@);
    let ghost raw = list@;
    let mut out = new_headers();
    proof {
        assert(all.take(0) =~= Seq::empty());
        assert(filtered(no_fields(), dropped) =~= no_fields());
    }
    for field in it: list
        invariant
            it.seq() == raw,
            all == listed(raw),
            grouped(all) == header_fields(*headers),
            grouped(all).dom().len() <= MAX_NAMES,
            dropped == if request {
                |n: Seq<char>| hop_by_hop_request(n)
            } else {
                |n: Seq<char>| hop_by_hop_response(n)
            },
            header_fields(out) == filtered(grouped(all.take(it.index() as int)), dropped),
    {
        let ghost i = it.index() as int;
        let ghost seen = grouped(all.take(i));
        let ghost next = grouped(all.take(i + 1));
        let (name, value) = field;
        let ghost n = name_text(name);
        let ghost v = value_bytes(value);
        proof {
            assert(all[i] == (n, v));
            assert(all.take(i + 1).drop_last() =~= all.take(i));
            assert(all.take(i + 1).last() == all[i]);
            lemma_grouped(all, i);
            lemma_grouped(all, i + 1);
            assert(next[n].last() == v);
        }
        let lower = to_ascii_lower(name_string(&name).as_str());
        let drop = if request {
            drops_from_request(lower.as_str())
        } else {
            drops_from_response(lower.as_str())
        };
        if !drop {
            proof {
                let after = header_fields(out).insert(n, seq![v]);
                assert(filtered(next, dropped) =~= after);
                assert(after.dom().subset_of(grouped(all).dom()));
                vstd::set_lib::lemma_len_subset(after.dom(), grouped(all).dom());
                assert(header_fields(out).dom().subset_of(grouped(all).dom()));
                vstd::set_lib::lemma_set_subset_finite(grouped(all).dom(), header_fields(out).dom());
            }
            put_header(&mut out, &name, &value);
        } else {
            assert(filtered(next, dropped) =~= filtered(seen, dropped));
        }
    }
    assert(all.take(raw.len() as int) =~= all);
    out
}

// ── Values as text ─────────────────────────────────────────────────────────

/// A byte that may stand in a field value that is text.
pub open spec fn visible(b: u8) -> bool {
    (32 <= b < 127) || b == 9
}

/// The text of a field value, if all its bytes are visible.
pub open spec fn value_text(value: Seq<u8>) -> Option<Seq<char>> {
    if forall|i: int| 0 <= i < value.len() ==> visible(#[trigger] value[i]) {
        Some(value.map_values(|b: u8| b as char))
    } else {
        None
    }
}

/// The text of the first value of a name.
pub open spec fn field_text(fields: Map<Seq<char>, Seq<Seq<u8>>>, name: Seq<char>) -> Option<
    Seq<char>,
> {
    match first_of(fields, name) {
        Some(value) => value_text(value),
        None => None,
    }
}

/// The text of the first value of a name.
pub(crate) fn header_text(headers: &http::HeaderMap, name: &str) -> (r: Option<String>)
    requires
        simple_name(name@),
    ensures
        opt_text(r) == field_text(header_fields(*headers), name@),
{
    match first_value(headers, name) {
        Some(value) => value_string(&value),
        None => None,
    }
}

/// Whether the fields announce a stream of server-sent events.
pub open spec fn announces_events(fields: Map<Seq<char>, Seq<Seq<u8>>>) -> bool {
    match field_text(fields, "content-type"@) {
        Some(text) => occurs(text, "text/event-stream"@),
        None => false,
    }
}

/// Whether the fields announce a stream of server-sent events.
pub fn is_event_stream(headers: &http::HeaderMap) -> (r: bool)
    ensures
        r == announces_events(header_fields(*headers)),
{
    proof {
        reveal_strlit("content-type");
    }
    match header_text(headers, "content-type") {
        Some(text) => has_text(text.as_str(), "text/event-stream"),
        None => false,
    }
}

// ── Fields of the proxy's own ──────────────────────────────────────────────

/// The field that tells the type of a body.
pub open spec fn typed(content_type: Seq<char>) -> Map<Seq<char>, Seq<Seq<u8>>> {
    no_fields().insert("content-type"@, seq![encode_utf8(content_type)])
}

/// The fields of a stream of events.
pub open spec fn event_stream() -> Map<Seq<char>, Seq<Seq<u8>>> {
    typed("text/event-stream"@).insert("cache-control"@, seq![encode_utf8("no-cache"@)])
}

/// The field that tells the type of a body.
pub(crate) fn typed_headers(content_type: &str) -> (r: http::HeaderMap)
    requires
        simple_text(content_type@),
    ensures
        header_fields(r) == typed(content_type@),
{
    proof {
        reveal_strlit("content-type");
    }
    let mut headers = new_headers();
    put_header(&mut headers, &make_name("content-type"), &make_value(content_type));
    headers
}

/// The fields of a stream of events.
pub(crate) fn event_stream_headers() -> (r: http::HeaderMap)
    ensures
        header_fields(r) == event_stream(),
{
    proof {
        reveal_strlit("text/event-stream");
        reveal_strlit("cache-control");
        reveal_strlit("no-cache");
        assert(typed("text/event-stream"@).dom() =~= set!["content-type"@]);
    }
    let mut headers = typed_headers("text/event-stream");
    put_header(&mut headers, &make_name("cache-control"), &make_value("no-cache"));
    headers
}

/// Which fields go on, for a name in lower case: from a request all but those that concern the
/// connection of the client, from a response all but those that concern that of the upstream or the
/// encoding of its body.
pub proof fn law_which_fields_go_on(fields: Map<Seq<char>, Seq<Seq<u8>>>, name: Seq<char>)
    requires
        fields.contains_key(name),
        forall|i: int| 0 <= i < name.len() ==> !('A' <= #[trigger] name[i] <= 'Z'),
    ensures
        !forwarded(fields).contains_key(name) <==> (
            name == "host"@
            || name == "connection"@
            || name == "content-length"@
            || name == "transfer-encoding"@
            || name == "keep-alive"@
            || name == "proxy-authorization"@
            || name == "te"@
            || name == "trailer"@
            || name == "upgrade"@),
        !passed_on(fields).contains_key(name) <==> (
            name == "content-length"@
            || name == "content-encoding"@
            || name == "transfer-encoding"@
            || name == "connection"@
            || name == "keep-alive"@),
        forwarded(fields).contains_key(name) ==> forwarded(fields)[name] == seq![
            fields[name].last(),
        ],
        passed_on(fields).contains_key(name) ==> passed_on(fields)[name] == seq![
            fields[name].last(),
        ],
{
    assert(lowered(name) =~= name);
}

/// The fields that the proxy makes up: the type of a body, and for a stream that it must not be
/// kept.
pub proof fn law_fields_of_the_proxy(content_type: Seq<char>)
    ensures
        typed(content_type) == Map::empty().insert("content-type"@, seq![encode_utf8(content_type)]),
        event_stream() == Map::empty().insert(
            "content-type"@,
            seq![encode_utf8("text/event-stream"@)],
        ).insert("cache-control"@, seq![encode_utf8("no-cache"@)]),
{
}

/// An answer is a stream of events if, and only if, the first value that tells its type is visible
/// text and holds the name of that type anywhere.
pub proof fn law_stream_is_announced_by_its_type(fields: Map<Seq<char>, Seq<Seq<u8>>>)
    ensures
        announces_events(fields) <==> fields.contains_key("content-type"@) && exists|
            before: Seq<char>,
            after: Seq<char>,
        |
            value_text(fields["content-type"@][0]) == Some(
                #[trigger] (before + "text/event-stream"@ + after),
            ),
{
    reveal_strlit("text/event-stream");
    let kind = "text/event-stream"@;
    if fields.contains_key("content-type"@) {
        if let Some(text) = value_text(fields["content-type"@][0]) {
            if occurs(text, kind) {
                let i = choose|i: int| stands_at(text, kind, i);
                let before = text.take(i);
                let after = text.skip(i + kind.len());
                assert(text =~= before + kind + after) by {
                    assert(text.subrange(i, i + kind.len()) == kind);
                    assert forall|j: int| i <= j < i + kind.len() implies text[j] == kind[j - i] by {
                        assert(text.subrange(i, i + kind.len())[j - i] == text[j]);
                    }
                }
            }
            assert forall|before: Seq<char>, after: Seq<char>|
                text == #[trigger] (before + kind + after) implies occurs(text, kind) by {
                let k = before.len() as int;
                assert(text.subrange(k, k + kind.len()) =~= kind);
                assert(stands_at(text, kind, k));
            }
        }
    }
}

/// A field is read from its first value, if that is made of visible characters, spaces and tabs: it
/// is then read character by character.
pub proof fn law_field_is_read(
    fields: Map<Seq<char>, Seq<Seq<u8>>>,
    name: Seq<char>,
    text: Seq<char>,
)
    ensures
        field_text(fields, name) == Some(text) <==> {
            &&& fields.contains_key(name)
            &&& fields[name][0].len() == text.len()
            &&& forall|i: int|
                0 <= i < text.len() ==> {
                    let b = #[trigger] fields[name][0][i];
                    (b == 9 || 32 <= b <= 126) && text[i] == b as char
                }
        },
{
    if fields.contains_key(name) {
        let value = fields[name][0];
        if field_text(fields, name) == Some(text) {
            assert forall|i: int| 0 <= i < text.len() implies {
                let b = #[trigger] fields[name][0][i];
                (b == 9 || 32 <= b <= 126) && text[i] == b as char
            } by {
                assert(visible(value[i]));
                assert(text[i] == value.map_values(|b: u8| b as char)[i]);
            }
        }
        if value.len() == text.len() && (forall|i: int|
            0 <= i < text.len() ==> {
                let b = #[trigger] fields[name][0][i];
                (b == 9 || 32 <= b <= 126) && text[i] == b as char
            }) {
            assert forall|i: int| 0 <= i < value.len() implies visible(#[trigger] value[i]) by {
                assert(fields[name][0][i] == value[i]);
            }
            assert(value.map_values(|b: u8| b as char) =~= text) by {
                assert forall|i: int| 0 <= i < text.len() implies value.map_values(
                    |b: u8| b as char,
                )[i] == text[i] by {
                    assert(fields[name][0][i] == value[i]);
                }
            }
        }
    }
}

}
