//! What the proxy tells of itself.

use crate::config::{names_of, strs, Config, ConfigView};
use crate::json::{
    exact_within, json_items, json_parse, json_text, reads_back, Json, JsonView, MAX_DEPTH,
};
use crate::headers::{typed, typed_headers};
use crate::reply::{Reply, ReplyView};
use vstd::prelude::*;
use vstd::string::StrSliceExecFns;
use vstd::utf8::encode_utf8;

verus! {

broadcast use vstd::string::group_string_axioms;

/// What the health check tells: the version and the routes, in the order of their entries.
pub open spec fn health_body(config: ConfigView, version: Seq<char>) -> JsonView {
    JsonView::Object(
        map![
            "ok"@ => JsonView::Bool(true),
            "version"@ => JsonView::Str(version),
            "routes"@ => JsonView::Array(
                names_of(config.routes).map_values(|n: Seq<char>| JsonView::Str(n)),
            ),
        ],
    )
}

/// An answer with a JSON body.
pub fn full_response(status: u16, body: &Json) -> (r: Reply)
    ensures
        r@ == (ReplyView {
            status,
            headers: typed("application/json"@),
            body: encode_utf8(json_text(body@)),
        }),
        reads_back(body@, r.body@),
{
    proof {
        reveal_strlit("application/json");
    }
    Reply { status, headers: typed_headers("application/json"), body: body.to_bytes() }
}

/// The answer to a health check. Its body can be read back.
pub fn handle_healthz(config: &Config, version: &str) -> (r: Reply)
    ensures
        r@ == (ReplyView {
            status: 200,
            headers: typed("application/json"@),
            body: encode_utf8(json_text(health_body(config@, version@))),
        }),
        json_parse(r.body@) == Some(health_body(config@, version@)),
{
    let names = config.route_names();
    let ghost all = names_of(config@.routes).map_values(|n: Seq<char>| JsonView::Str(n));
    let mut items: Vec<Json> = Vec::new();
    let mut i: usize = 0;
    assert(json_items(items@) =~= all.take(0));
    while i < names.len()
        invariant
            strs(names@) == names_of(config@.routes),
            all == names_of(config@.routes).map_values(|n: Seq<char>| JsonView::Str(n)),
            all.len() == names@.len(),
            i <= names@.len(),
            json_items(items@) == all.take(i as int),
        decreases names@.len() - i,
    {
        let ghost before = items@;
        let item = Json::string(names[i]);
        items.push(item);
        proof {
            assert(strs(names@)[i as int] == names@[i as int]@);
            assert(json_items(items@) =~= json_items(before).push(item@));
            assert(all.take(i + 1) =~= all.take(i as int).push(all[i as int]));
        }
        i += 1;
    }
    assert(all.take(all.len() as int) =~= all);
    let body = Json::object().with("ok", Json::Bool(true)).with(
        "version",
        Json::string(version),
    ).with("routes", Json::Array(items));
    assert(exact_within(body@, MAX_DEPTH as nat)) by {
        reveal_with_fuel(exact_within, 4);
    }
    full_response(200, &body)
}

/// The answer to a request for the metrics, given their text.
pub fn handle_metrics(text: &str) -> (r: Reply)
    ensures
        r@ == (ReplyView {
            status: 200,
            headers: typed("text/plain; version=0.0.4"@),
            body: encode_utf8(text@),
        }),
{
    proof {
        reveal_strlit("text/plain; version=0.0.4");
    }
    Reply {
        status: 200,
        headers: typed_headers("text/plain; version=0.0.4"),
        body: text.as_bytes_vec(),
    }
}

/// A healthy proxy says so, with its version and the names of its routes in their order.
pub proof fn law_health_is_told(config: ConfigView, version: Seq<char>)
    ensures
        ({
            let body = health_body(config, version);
            &&& body.get("ok"@) == Some(JsonView::Bool(true))
            &&& body.get("version"@) == Some(JsonView::Str(version))
            &&& body.get("routes"@) matches Some(JsonView::Array(names)) && names.len()
                == config.routes.len() && forall|i: int|
                0 <= i < names.len() ==> #[trigger] names[i] == JsonView::Str(config.routes[i].0)
        }),
{
    reveal_strlit("ok");
    reveal_strlit("version");
    reveal_strlit("routes");
    assert("ok"@.len() == 2);
    assert("version"@.len() == 7);
    assert("routes"@.len() == 6);
}

}
