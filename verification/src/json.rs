//! JSON values: a mathematical model, an executable representation, and the way to and from
//! `serde_json`.

use crate::entries::{
    distinct, entries_map, find_entry, insert_entry, last_named, lemma_finite, lemma_found,
    lemma_lookup, lemma_placed, named, viewed,
};
use crate::text::opt_str;
use vstd::prelude::*;
use vstd::string::StrSliceExecFns;
use vstd::utf8::encode_utf8;

verus! {

broadcast use vstd::string::group_string_axioms;

// ── The model ──────────────────────────────────────────────────────────────

/// A JSON value.
pub enum JsonView {
    Null,
    Bool(bool),
    /// A number without fraction or exponent that fits in 64 bits.
    Int(int),
    /// Any other number.
    Float(serde_json::Number),
    Str(Seq<char>),
    Array(Seq<JsonView>),
    Object(Map<Seq<char>, JsonView>),
}

impl JsonView {
    /// The member `key` of an object.
    pub open spec fn get(self, key: Seq<char>) -> Option<JsonView> {
        match self {
            JsonView::Object(members) if members.contains_key(key) => Some(members[key]),
            _ => None,
        }
    }

    /// The characters of a string.
    pub open spec fn as_str(self) -> Option<Seq<char>> {
        match self {
            JsonView::Str(s) => Some(s),
            _ => None,
        }
    }

    /// The items of an array.
    pub open spec fn as_array(self) -> Option<Seq<JsonView>> {
        match self {
            JsonView::Array(items) => Some(items),
            _ => None,
        }
    }

    /// An integer that is not negative.
    pub open spec fn as_u64(self) -> Option<u64> {
        match self {
            JsonView::Int(n) if 0 <= n <= u64::MAX => Some(n as u64),
            _ => None,
        }
    }

    /// The object with `value` as its member `key`; any other value as it is.
    pub open spec fn with(self, key: Seq<char>, value: JsonView) -> JsonView {
        match self {
            JsonView::Object(members) => JsonView::Object(members.insert(key, value)),
            _ => self,
        }
    }

    /// The object with `value`, if there is one, as its member `key`.
    pub open spec fn with_some(self, key: Seq<char>, value: Option<JsonView>) -> JsonView {
        match value {
            Some(v) => self.with(key, v),
            None => self,
        }
    }

    /// The string under `key`.
    pub open spec fn str_at(self, key: Seq<char>) -> Option<Seq<char>> {
        match self.get(key) {
            Some(v) => v.as_str(),
            None => None,
        }
    }

    /// The string under `key`, or the empty string.
    pub open spec fn text_at(self, key: Seq<char>) -> Seq<char> {
        match self.str_at(key) {
            Some(s) => s,
            None => Seq::empty(),
        }
    }

    /// The items of the array under `key`.
    pub open spec fn array_at(self, key: Seq<char>) -> Option<Seq<JsonView>> {
        match self.get(key) {
            Some(v) => v.as_array(),
            None => None,
        }
    }

    /// The integer under `key`, or zero.
    pub open spec fn count_at(self, key: Seq<char>) -> u64 {
        match self.get(key) {
            Some(v) => match v.as_u64() {
                Some(n) => n,
                None => 0,
            },
            None => 0,
        }
    }

    /// The member `key`, or `default`.
    pub open spec fn get_or(self, key: Seq<char>, default: JsonView) -> JsonView {
        match self.get(key) {
            Some(v) => v,
            None => default,
        }
    }
}

/// The object without members.
pub open spec fn empty_object() -> JsonView {
    JsonView::Object(Map::empty())
}

/// `v` holds no number with a fraction or an exponent, and nests at most `depth` levels deep.
pub open spec fn exact_within(v: JsonView, depth: nat) -> bool
    decreases depth,
{
    match v {
        JsonView::Float(_) => false,
        JsonView::Array(items) => depth > 0 && forall|i: int|
            0 <= i < items.len() ==> exact_within(#[trigger] items[i], (depth - 1) as nat),
        JsonView::Object(members) => depth > 0 && forall|k: Seq<char>|
            members.contains_key(k) ==> exact_within(#[trigger] members[k], (depth - 1) as nat),
        _ => true,
    }
}

/// Putting a member into an object keeps it exact.
pub proof fn lemma_exact_with(v: JsonView, key: Seq<char>, value: JsonView, depth: nat)
    requires
        exact_within(v, depth),
        depth > 0,
        exact_within(value, (depth - 1) as nat),
    ensures
        exact_within(v.with(key, value), depth),
{
    if let JsonView::Object(members) = v {
        let changed = members.insert(key, value);
        assert forall|k: Seq<char>| changed.contains_key(k) implies exact_within(
            #[trigger] changed[k],
            (depth - 1) as nat,
        ) by {
            if k != key {
                assert(members.contains_key(k));
                assert(exact_within(members[k], (depth - 1) as nat));
            }
        }
    }
}

/// The outermost `depth` levels of two values are the same, save that where one has a number with
/// a fraction or an exponent, the other may have another such number.
pub open spec fn alike(v: JsonView, w: JsonView, depth: nat) -> bool
    decreases depth,
{
    match (v, w) {
        (JsonView::Float(_), JsonView::Float(_)) => true,
        (JsonView::Array(items), JsonView::Array(others)) => {
            &&& items.len() == others.len()
            &&& depth > 0 ==> forall|i: int|
                0 <= i < items.len() ==> alike(
                    #[trigger] items[i],
                    others[i],
                    (depth - 1) as nat,
                )
        },
        (JsonView::Object(members), JsonView::Object(others)) => {
            &&& members.dom() == others.dom()
            &&& depth > 0 ==> forall|k: Seq<char>|
                members.contains_key(k) ==> alike(
                    #[trigger] members[k],
                    others[k],
                    (depth - 1) as nat,
                )
        },
        _ => v == w,
    }
}

/// Values that are alike have the same strings under each name.
pub proof fn lemma_alike_strings(v: JsonView, w: JsonView, depth: nat, key: Seq<char>)
    requires
        alike(v, w, depth),
        depth > 0,
    ensures
        w.get(key) is Some <==> v.get(key) is Some,
        w.str_at(key) == v.str_at(key),
{
    reveal_with_fuel(alike, 2);
    if let (JsonView::Object(members), JsonView::Object(others)) = (v, w) {
        assert(members.dom().contains(key) <==> others.dom().contains(key));
        if members.contains_key(key) {
            assert(alike(members[key], others[key], (depth - 1) as nat));
        }
    }
}

/// A member is found under its own name and nowhere else, and only an object has members. What is
/// read under a name depends on that member alone: a string, an array or an integer that is not
/// negative is read as what it is, and anything else as if it were missing.
pub proof fn law_members_are_read(v: JsonView, key: Seq<char>, default: JsonView)
    ensures
        match v {
            JsonView::Object(members) => v.get(key) == if members.contains_key(key) {
                Some(members[key])
            } else {
                None
            },
            _ => v.get(key) is None,
        },
        v.get_or(key, default) == match v.get(key) {
            Some(member) => member,
            None => default,
        },
        match v.get(key) {
            Some(JsonView::Str(text)) => {
                &&& v.str_at(key) == Some(text)
                &&& v.text_at(key) == text
            },
            _ => {
                &&& v.str_at(key) is None
                &&& v.text_at(key) == Seq::<char>::empty()
            },
        },
        match v.get(key) {
            Some(JsonView::Array(items)) => v.array_at(key) == Some(items),
            _ => v.array_at(key) is None,
        },
        match v.get(key) {
            Some(JsonView::Int(n)) if 0 <= n <= u64::MAX => v.count_at(key) == n,
            _ => v.count_at(key) == 0,
        },
{
}

/// What is written into an object is read back under its name, and what is under other names stays.
/// Nothing can be written into what is no object.
pub proof fn law_members_are_written(
    v: JsonView,
    key: Seq<char>,
    value: JsonView,
    other: Seq<char>,
)
    ensures
        v is Object ==> v.with(key, value).get(key) == Some(value),
        v is Object ==> v.with(key, value) is Object,
        other != key ==> v.with(key, value).get(other) == v.get(other),
        !(v is Object) ==> v.with(key, value) == v,
        v.with_some(key, Some(value)) == v.with(key, value),
        v.with_some(key, None) == v,
{
}

/// How deep a value may nest so that its text can still be read.
pub const MAX_DEPTH: u8 = 127;

/// `bytes` can be read as the text of `v`: they give `v` itself if it holds no number with a
/// fraction or an exponent and does not nest too deep, and otherwise, if they can be read at all,
/// `v` with perhaps other such numbers.
pub open spec fn reads_back(v: JsonView, bytes: Seq<u8>) -> bool {
    &&& exact_within(v, MAX_DEPTH as nat) ==> json_parse(bytes) == Some(v)
    &&& json_parse(bytes) matches Some(read) ==> alike(v, read, MAX_DEPTH as nat)
}

// ── serde_json ─────────────────────────────────────────────────────────────

/// The numbers of `serde_json`.
#[verifier::external_type_specification]
#[verifier::external_body]
pub struct ExNumber(serde_json::Number);

/// The values of `serde_json`.
#[verifier::external_type_specification]
#[verifier::external_body]
pub struct ExValue(serde_json::Value);

/// What is known of a number.
pub enum NumberView {
    Int(int),
    Float,
}

/// What a number of `serde_json` holds.
pub uninterp spec fn number_view(n: serde_json::Number) -> NumberView;

/// A number of `serde_json` as a JSON value.
pub open spec fn number_json(n: serde_json::Number) -> JsonView {
    match number_view(n) {
        NumberView::Int(i) => JsonView::Int(i),
        NumberView::Float => JsonView::Float(n),
    }
}

/// What a value of `serde_json` holds.
pub uninterp spec fn value_view(v: serde_json::Value) -> JsonView;

/// What `serde_json` reads in a sequence of bytes, if they are one JSON text.
pub uninterp spec fn json_parse(bytes: Seq<u8>) -> Option<JsonView>;

/// The compact text that `serde_json` writes for a value.
pub uninterp spec fn json_text(v: JsonView) -> Seq<char>;

/// The kinds of numbers.
pub enum NumberKind {
    Unsigned(u64),
    Negative(i64),
    Float,
}

/// `Number::as_u64` and `Number::as_i64`: which of the three kinds a number is, and the value
/// of an integer.
#[verifier::external_body]
fn number_kind(n: &serde_json::Number) -> (r: NumberKind)
    ensures
        match r {
            NumberKind::Unsigned(u) => number_view(*n) == NumberView::Int(u as int),
            NumberKind::Negative(i) => i < 0 && number_view(*n) == NumberView::Int(i as int),
            NumberKind::Float => number_view(*n) == NumberView::Float,
        },
{
    match (n.as_u64(), n.as_i64()) {
        (Some(u), _) => NumberKind::Unsigned(u),
        (None, Some(i)) => NumberKind::Negative(i),
        (None, None) => NumberKind::Float,
    }
}

/// `Number::from` for `u64`: the number that holds this integer.
#[verifier::external_body]
fn number_from_u64(u: u64) -> (r: serde_json::Number)
    ensures
        number_view(r) == NumberView::Int(u as int),
{
    serde_json::Number::from(u)
}

/// `Number::clone`: the same number.
#[verifier::external_body]
fn clone_number(n: &serde_json::Number) -> (r: serde_json::Number)
    ensures
        r == *n,
{
    n.clone()
}

/// A value of `serde_json`, one level of it taken apart.
pub enum Node {
    Null,
    Bool(bool),
    Number(serde_json::Number),
    Str(String),
    Array(Vec<serde_json::Value>),
    Object(Vec<(String, serde_json::Value)>),
}

/// What the parts of a value make.
pub open spec fn node_view(n: Node) -> JsonView {
    match n {
        Node::Null => JsonView::Null,
        Node::Bool(b) => JsonView::Bool(b),
        Node::Number(n) => number_json(n),
        Node::Str(s) => JsonView::Str(s@),
        Node::Array(items) => JsonView::Array(
            items@.map_values(|v: serde_json::Value| value_view(v)),
        ),
        Node::Object(members) => JsonView::Object(
            entries_map(viewed(members@, |v: serde_json::Value| value_view(v))),
        ),
    }
}

/// Tells the variants of a `serde_json::Value` apart and takes out what it holds; the members
/// of a `serde_json::Map` come as a list without repeated names.
#[verifier::external_body]
fn value_node(v: serde_json::Value) -> (r: Node)
    ensures
        node_view(r) == value_view(v),
        r matches Node::Object(members) ==> distinct(named(members@)),
{
    match v {
        serde_json::Value::Null => Node::Null,
        serde_json::Value::Bool(b) => Node::Bool(b),
        serde_json::Value::Number(n) => Node::Number(n),
        serde_json::Value::String(s) => Node::Str(s),
        serde_json::Value::Array(items) => Node::Array(items),
        serde_json::Value::Object(members) => Node::Object(members.into_iter().collect()),
    }
}

/// The variants of `serde_json::Value` as constructors; a `serde_json::Map` is collected from
/// members of which no two have the same name.
#[verifier::external_body]
fn node_value(n: Node) -> (r: serde_json::Value)
    requires
        n matches Node::Object(members) ==> distinct(named(members@)),
    ensures
        value_view(r) == node_view(n),
{
    match n {
        Node::Null => serde_json::Value::Null,
        Node::Bool(b) => serde_json::Value::Bool(b),
        Node::Number(n) => serde_json::Value::Number(n),
        Node::Str(s) => serde_json::Value::String(s),
        Node::Array(items) => serde_json::Value::Array(items),
        Node::Object(members) => serde_json::Value::Object(members.into_iter().collect()),
    }
}

/// `serde_json::from_slice` into a `serde_json::Value`: what the bytes hold if they are one
/// JSON text, nothing otherwise.
#[verifier::external_body]
fn parse_value(bytes: &[u8]) -> (r: Option<serde_json::Value>)
    ensures
        match r {
            Some(v) => json_parse(bytes@) == Some(value_view(v)),
            None => json_parse(bytes@) is None,
        },
{
    serde_json::from_slice(bytes).ok()
}

/// `serde_json::to_string` of a `serde_json::Value`: the compact text, which is never empty.
/// Writing a value into memory does not fail. The text reads back as the value, unless it
/// nests too deep for the reader or holds a number with a fraction or an exponent. Such a number
/// is written with a fraction or an exponent again; the reader may find another last digit in
/// it, or refuse it as too large.
#[verifier::external_body]
fn value_text(v: &serde_json::Value) -> (r: String)
    ensures
        r@ == json_text(value_view(*v)),
        r@.len() > 0,
        reads_back(value_view(*v), encode_utf8(r@)),
{
    serde_json::to_string(v).unwrap_or_default()
}

// ── The representation ─────────────────────────────────────────────────────

/// A JSON value. Of members with the same name the last one counts.
pub enum Json {
    Null,
    Bool(bool),
    Number(serde_json::Number),
    Str(String),
    Array(Vec<Json>),
    Object(Vec<(String, Json)>),
}

/// The value that a representation stands for.
pub open spec fn json_view(j: Json) -> JsonView
    decreases j,
{
    match j {
        Json::Null => JsonView::Null,
        Json::Bool(b) => JsonView::Bool(b),
        Json::Number(n) => number_json(n),
        Json::Str(s) => JsonView::Str(s@),
        Json::Array(items) => JsonView::Array(json_items(items@)),
        Json::Object(members) => JsonView::Object(entries_map(json_members(members@))),
    }
}

/// The values that the items of an array stand for.
pub open spec fn json_items(items: Seq<Json>) -> Seq<JsonView>
    decreases items,
{
    Seq::new(
        items.len(),
        |i: int|
            if 0 <= i < items.len() {
                json_view(items[i])
            } else {
                JsonView::Null
            },
    )
}

/// The values that the members of an object stand for.
pub open spec fn json_members(members: Seq<(String, Json)>) -> Seq<(Seq<char>, JsonView)>
    decreases members,
{
    Seq::new(
        members.len(),
        |i: int|
            if 0 <= i < members.len() {
                (members[i].0@, json_view(members[i].1))
            } else {
                (Seq::empty(), JsonView::Null)
            },
    )
}

impl View for Json {
    type V = JsonView;

    open spec fn view(&self) -> JsonView {
        json_view(*self)
    }
}

/// What an optional representation stands for.
pub open spec fn opt_view(o: Option<&Json>) -> Option<JsonView> {
    match o {
        Some(v) => Some(v@),
        None => None,
    }
}

/// What is seen of the members of an object.
proof fn lemma_members(members: Seq<(String, Json)>)
    ensures
        json_members(members) == viewed(members, |v: Json| v@),
{
    assert(json_members(members) =~= viewed(members, |v: Json| v@));
}

impl Json {
    /// The member `key` of an object.
    pub fn get(&self, key: &str) -> (r: Option<&Json>)
        ensures
            opt_view(r) == self@.get(key@),
    {
        match self {
            Json::Object(members) => {
                let found = find_entry(members, key);
                proof {
                    lemma_members(members@);
                    lemma_found(members@, key@, found, |v: Json| v@);
                }
                match found {
                    Some(i) => Some(&members[i].1),
                    None => None,
                }
            },
            _ => None,
        }
    }

    /// The characters of a string.
    pub fn as_str(&self) -> (r: Option<&str>)
        ensures
            opt_str(r) == self@.as_str(),
    {
        match self {
            Json::Str(s) => Some(s.as_str()),
            _ => None,
        }
    }

    /// The items of an array.
    pub fn as_array(&self) -> (r: Option<&Vec<Json>>)
        ensures
            match r {
                Some(items) => self@.as_array() == Some(json_items(items@)),
                None => self@.as_array() is None,
            },
    {
        match self {
            Json::Array(items) => Some(items),
            _ => None,
        }
    }

    /// An integer that is not negative.
    pub fn as_u64(&self) -> (r: Option<u64>)
        ensures
            r == self@.as_u64(),
    {
        match self {
            Json::Number(n) => match number_kind(n) {
                NumberKind::Unsigned(u) => Some(u),
                _ => None,
            },
            _ => None,
        }
    }

    /// Whether this is `null`.
    pub fn is_null(&self) -> (r: bool)
        ensures
            r == (self@ is Null),
    {
        match self {
            Json::Null => true,
            _ => false,
        }
    }

    /// Whether this is an object.
    pub fn is_object(&self) -> (r: bool)
        ensures
            r == (self@ is Object),
    {
        match self {
            Json::Object(_) => true,
            _ => false,
        }
    }

    /// The string `s`.
    pub fn string(s: &str) -> (r: Json)
        ensures
            r@ == JsonView::Str(s@),
    {
        Json::Str(s.to_owned())
    }

    /// The integer `n`.
    pub fn number(n: u64) -> (r: Json)
        ensures
            r@ == JsonView::Int(n as int),
    {
        Json::Number(number_from_u64(n))
    }

    /// The object without members.
    pub fn object() -> (r: Json)
        ensures
            r@ == empty_object(),
    {
        let members: Vec<(String, Json)> = Vec::new();
        assert(json_members(members@) =~= Seq::empty());
        Json::Object(members)
    }

    /// The array without items.
    pub fn array() -> (r: Json)
        ensures
            r@ == JsonView::Array(Seq::empty()),
    {
        let items: Vec<Json> = Vec::new();
        assert(json_items(items@) =~= Seq::empty());
        Json::Array(items)
    }

    /// The object with `value` as its member `key`; any other value as it is.
    pub fn with(self, key: &str, value: Json) -> (r: Json)
        ensures
            r@ == self@.with(key@, value@),
    {
        match self {
            Json::Object(members) => {
                let mut members = members;
                let ghost before = members@;
                let name = key.to_owned();
                let ghost g = name;
                insert_entry(&mut members, name, value);
                proof {
                    lemma_members(before);
                    lemma_members(members@);
                    lemma_placed(before, members@, g, value, |v: Json| v@);
                }
                Json::Object(members)
            },
            other => other,
        }
    }

    /// The object with `value`, if there is one, as its member `key`.
    pub fn with_some(self, key: &str, value: Option<&Json>) -> (r: Json)
        ensures
            r@ == self@.with_some(key@, opt_view(value)),
    {
        match value {
            Some(v) => self.with(key, v.clone()),
            None => self,
        }
    }

    /// The empty string.
    pub fn empty_string() -> (r: Json)
        ensures
            r@ == JsonView::Str(Seq::empty()),
    {
        Json::Str(String::new())
    }

    /// The string under `key`.
    pub fn str_at(&self, key: &str) -> (r: Option<&str>)
        ensures
            opt_str(r) == self@.str_at(key@),
    {
        match self.get(key) {
            Some(v) => v.as_str(),
            None => None,
        }
    }

    /// The string under `key`, or the empty string.
    pub fn text_at(&self, key: &str) -> (r: &str)
        ensures
            r@ == self@.text_at(key@),
    {
        match self.str_at(key) {
            Some(s) => s,
            None => {
                proof {
                    reveal_strlit("");
                    assert(""@ =~= Seq::empty());
                }
                ""
            },
        }
    }

    /// The items of the array under `key`.
    pub fn array_at(&self, key: &str) -> (r: Option<&Vec<Json>>)
        ensures
            match r {
                Some(items) => self@.array_at(key@) == Some(json_items(items@)),
                None => self@.array_at(key@) is None,
            },
    {
        match self.get(key) {
            Some(v) => v.as_array(),
            None => None,
        }
    }

    /// The integer under `key`, or zero.
    pub fn count_at(&self, key: &str) -> (r: u64)
        ensures
            r == self@.count_at(key@),
    {
        match self.get(key) {
            Some(v) => match v.as_u64() {
                Some(n) => n,
                None => 0,
            },
            None => 0,
        }
    }

    /// The member `key`, or `default`.
    pub fn get_or(&self, key: &str, default: Json) -> (r: Json)
        ensures
            r@ == self@.get_or(key@, default@),
    {
        match self.get(key) {
            Some(v) => v.clone(),
            None => default,
        }
    }
}

impl Clone for Json {
    fn clone(&self) -> (r: Self)
        ensures
            r@ == self@,
        decreases self,
    {
        match self {
            Json::Null => Json::Null,
            Json::Bool(b) => Json::Bool(*b),
            Json::Number(n) => Json::Number(clone_number(n)),
            Json::Str(s) => Json::Str(s.clone()),
            Json::Array(items) => {
                let mut copy: Vec<Json> = Vec::new();
                let mut i: usize = 0;
                while i < items.len()
                    invariant
                        *self == Json::Array(*items),
                        i <= items@.len(),
                        copy@.len() == i,
                        forall|j: int| 0 <= j < i ==> (#[trigger] copy@[j])@ == items@[j]@,
                    decreases items@.len() - i,
                {
                    assert(decreases_to!(*self => self->Array_0));
                    assert(decreases_to!(*items => items@));
                    assert(decreases_to!(items@ => items@[i as int]));
                    let v = items[i].clone();
                    copy.push(v);
                    i += 1;
                }
                assert(json_items(copy@) =~= json_items(items@));
                Json::Array(copy)
            },
            Json::Object(members) => {
                let mut copy: Vec<(String, Json)> = Vec::new();
                let mut i: usize = 0;
                while i < members.len()
                    invariant
                        *self == Json::Object(*members),
                        i <= members@.len(),
                        copy@.len() == i,
                        forall|j: int|
                            0 <= j < i ==> (#[trigger] copy@[j]).0@ == members@[j].0@
                                && copy@[j].1@ == members@[j].1@,
                    decreases members@.len() - i,
                {
                    assert(decreases_to!(*self => self->Object_0));
                    assert(decreases_to!(*members => members@));
                    assert(decreases_to!(members@ => members@[i as int]));
                    assert(decreases_to!(members@[i as int] => members@[i as int].1));
                    let v = members[i].1.clone();
                    copy.push((members[i].0.clone(), v));
                    i += 1;
                }
                assert(json_members(copy@) =~= json_members(members@));
                Json::Object(copy)
            },
        }
    }
}

/// Turns a value of `serde_json` into its representation.
fn from_value(v: serde_json::Value) -> (r: Json)
    ensures
        r@ == value_view(v),
    decreases value_view(v),
{
    match value_node(v) {
        Node::Null => Json::Null,
        Node::Bool(b) => Json::Bool(b),
        Node::Number(n) => Json::Number(n),
        Node::Str(s) => Json::Str(s),
        Node::Array(values) => {
            let mut items: Vec<Json> = Vec::new();
            let ghost all = values@;
            let ghost whole = value_view(v);
            for x in it: values
                invariant
                    it.seq() == all,
                    whole == value_view(v),
                    whole == JsonView::Array(all.map_values(|v: serde_json::Value| value_view(v))),
                    items@.len() == it.index(),
                    forall|j: int|
                        0 <= j < items@.len() ==> (#[trigger] items@[j])@ == value_view(all[j]),
            {
                proof {
                    let i = it.index() as int;
                    assert(whole->Array_0[i] == value_view(x));
                    assert(decreases_to!(whole => whole->Array_0));
                    assert(decreases_to!(whole->Array_0 => whole->Array_0[i]));
                }
                items.push(from_value(x));
            }
            assert(json_items(items@) =~= all.map_values(|v: serde_json::Value| value_view(v)));
            Json::Array(items)
        },
        Node::Object(values) => {
            let mut members: Vec<(String, Json)> = Vec::new();
            let ghost all = values@;
            let ghost seen = viewed(all, |v: serde_json::Value| value_view(v));
            let ghost whole = value_view(v);
            for x in it: values
                invariant
                    it.seq() == all,
                    seen == viewed(all, |v: serde_json::Value| value_view(v)),
                    distinct(named(all)),
                    whole == value_view(v),
                    whole == JsonView::Object(entries_map(seen)),
                    members@.len() == it.index(),
                    forall|j: int|
                        0 <= j < members@.len() ==> (#[trigger] members@[j]).0@ == seen[j].0
                            && members@[j].1@ == seen[j].1,
            {
                proof {
                    let i = it.index() as int;
                    assert forall|j: int| 0 <= j < all.len() implies named(all)[j].0
                        == seen[j].0 by {}
                    assert(last_named(seen, seen[i].0, i));
                    lemma_lookup(seen, seen[i].0, i);
                    lemma_finite(seen);
                    let map = whole->Object_0;
                    assert(decreases_to!(whole => whole->Object_0));
                    assert(decreases_to!(map => map[seen[i].0]));
                }
                let (name, value) = x;
                members.push((name, from_value(value)));
            }
            assert(json_members(members@) =~= seen);
            Json::Object(members)
        },
    }
}

impl Json {
    /// Reads a JSON text.
    pub fn parse(bytes: &[u8]) -> (r: Option<Json>)
        ensures
            match r {
                Some(v) => json_parse(bytes@) == Some(v@),
                None => json_parse(bytes@) is None,
            },
    {
        match parse_value(bytes) {
            Some(v) => Some(from_value(v)),
            None => None,
        }
    }

    /// Turns the representation into a value of `serde_json`.
    fn to_value(&self) -> (r: serde_json::Value)
        ensures
            value_view(r) == self@,
        decreases self,
    {
        match self {
            Json::Null => node_value(Node::Null),
            Json::Bool(b) => node_value(Node::Bool(*b)),
            Json::Number(n) => node_value(Node::Number(clone_number(n))),
            Json::Str(s) => node_value(Node::Str(s.clone())),
            Json::Array(items) => {
                let mut values: Vec<serde_json::Value> = Vec::new();
                let mut i: usize = 0;
                while i < items.len()
                    invariant
                        *self == Json::Array(*items),
                        i <= items@.len(),
                        values@.len() == i,
                        forall|j: int|
                            0 <= j < i ==> value_view(#[trigger] values@[j]) == items@[j]@,
                    decreases items@.len() - i,
                {
                    assert(decreases_to!(*self => self->Array_0));
                    assert(decreases_to!(*items => items@));
                    assert(decreases_to!(items@ => items@[i as int]));
                    values.push(items[i].to_value());
                    i += 1;
                }
                assert(values@.map_values(|v: serde_json::Value| value_view(v)) =~= json_items(
                    items@,
                ));
                node_value(Node::Array(values))
            },
            Json::Object(members) => {
                let mut values: Vec<(String, serde_json::Value)> = Vec::new();
                let ghost seen = json_members(members@);
                let mut i: usize = 0;
                assert(named(values@) =~= Seq::empty());
                let ghost f = |v: serde_json::Value| value_view(v);
                assert(viewed(values@, f) =~= Seq::empty());
                assert(seen.take(0) =~= Seq::empty());
                while i < members.len()
                    invariant
                        *self == Json::Object(*members),
                        seen == json_members(members@),
                        i <= members@.len(),
                        distinct(named(values@)),
                        f == (|v: serde_json::Value| value_view(v)),
                        entries_map(viewed(values@, f)) == entries_map(seen.take(i as int)),
                    decreases members@.len() - i,
                {
                    assert(decreases_to!(*self => self->Object_0));
                    assert(decreases_to!(*members => members@));
                    assert(decreases_to!(members@ => members@[i as int]));
                    assert(decreases_to!(members@[i as int] => members@[i as int].1));
                    let value = members[i].1.to_value();
                    let name = members[i].0.clone();
                    let ghost before = values@;
                    let ghost g = name;
                    let ghost w = value;
                    insert_entry(&mut values, name, value);
                    proof {
                        lemma_placed(before, values@, g, w, f);
                        assert(seen.take(i + 1).drop_last() =~= seen.take(i as int));
                    }
                    i += 1;
                }
                assert(seen.take(members@.len() as int) =~= seen);
                node_value(Node::Object(values))
            },
        }
    }

    /// The compact text of the value.
    pub fn to_text(&self) -> (r: String)
        ensures
            r@ == json_text(self@),
            r@.len() > 0,
            reads_back(self@, encode_utf8(r@)),
    {
        value_text(&self.to_value())
    }

    /// The compact text of the value, encoded.
    pub fn to_bytes(&self) -> (r: Vec<u8>)
        ensures
            r@ == encode_utf8(json_text(self@)),
            r@.len() > 0,
            reads_back(self@, r@),
    {
        let text = self.to_text();
        text.as_str().as_bytes_vec()
    }
}

}
