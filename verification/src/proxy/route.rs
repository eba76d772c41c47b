//! Which route a request takes.

use crate::config::{
    names_of, resolved_route, Config, ConfigView, ResolvedRouteConfig, RouteView, SettingsView,
};
use crate::json::json_text;
use crate::reply::{error_body, error_reply, error_response, Reply, ReplyView};
use crate::text::{
    after_prefix, joined, law_without_trailing, lemma_first_at, lemma_first_at_unique,
    parts_around, split_once, str_eq, strip_prefix, trim_end_char, without_trailing,
};
use vstd::prelude::*;
use vstd::string::StringExecFns;
use vstd::utf8::encode_utf8;

verus! {

broadcast use vstd::string::group_string_axioms;

/// The name of the route that a path starts with, and what follows it.
pub open spec fn route_and_rest(path: Seq<char>) -> Option<(Seq<char>, Seq<char>)> {
    match after_prefix(path, "/"@) {
        Some(inner) => match parts_around(inner, '/') {
            Some((name, rest)) if name.len() > 0 => Some((name, rest)),
            _ => None,
        },
        None => None,
    }
}

/// The name of the route that a path starts with, and what follows it. The first segment of
/// the path is the name; it must not be the last one.
pub fn match_route(path: &str) -> (r: Option<(&str, &str)>)
    ensures
        match r {
            Some((name, rest)) => route_and_rest(path@) == Some((name@, rest@)),
            None => route_and_rest(path@) is None,
        },
{
    match strip_prefix(path, "/") {
        Some(inner) => match split_once(inner, '/') {
            Some((name, rest)) => if name.is_empty() {
                None
            } else {
                Some((name, rest))
            },
            None => None,
        },
        None => None,
    }
}

/// Every route whose name can stand in a path is found by it, whatever follows.
pub proof fn law_route_is_found(name: Seq<char>, rest: Seq<char>)
    requires
        name.len() > 0,
        !name.contains('/'),
    ensures
        route_and_rest("/"@ + name + "/"@ + rest) == Some((name, rest)),
{
    reveal_strlit("/");
    let path = "/"@ + name + "/"@ + rest;
    let inner = name + "/"@ + rest;
    assert(path =~= "/"@ + inner);
    assert(path.take(1) =~= "/"@);
    assert(path.skip(1) =~= inner);
    assert forall|j: int| 0 <= j < name.len() implies inner[j] != '/' by {
        assert(inner[j] == name[j]);
    }
    lemma_first_at_unique(inner, '/', name.len() as int);
    assert(inner.take(name.len() as int) =~= name);
    assert(inner.skip(name.len() as int + 1) =~= rest);
}

/// A path without a second segment, or one that does not start with a slash, names no route.
pub proof fn law_short_path_names_no_route(path: Seq<char>)
    requires
        !path.skip(1).contains('/') || path.len() == 0 || path[0] != '/',
    ensures
        route_and_rest(path) is None,
{
    reveal_strlit("/");
    if "/"@.is_prefix_of(path) {
        assert(path[0] == "/"@[0]);
        let inner = path.skip(1);
        assert forall|j: int| 0 <= j < inner.len() implies inner[j] != '/' by {
            assert(inner.contains(inner[j]));
        }
        lemma_first_at_unique(inner, '/', inner.len() as int);
    }
}

/// The address of what follows the name of the route at the route's target.
pub open spec fn upstream_url(target: Seq<char>, rest: Seq<char>) -> Seq<char> {
    without_trailing(target, '/') + "/"@ + rest
}

/// The address of what follows the name of the route at the route's target.
pub fn build_upstream_url(target: &str, rest: &str) -> (r: String)
    ensures
        r@ == upstream_url(target@, rest@),
{
    let mut url = trim_end_char(target, '/').to_owned();
    url.append("/");
    url.append(rest);
    url
}

/// A slash at the end of a target makes no difference.
pub proof fn law_trailing_slash(target: Seq<char>, rest: Seq<char>)
    ensures
        upstream_url(target.push('/'), rest) == upstream_url(target, rest),
{
    assert(target.push('/').drop_last() =~= target);
}

// ── Dispatch ───────────────────────────────────────────────────────────────

/// A request with its route.
#[derive(Debug)]
pub struct Routed {
    pub route: String,
    /// What follows the name of the route in the path.
    pub rest: String,
    /// The settings of the route.
    pub settings: ResolvedRouteConfig,
}

/// What becomes of a request.
#[derive(Debug)]
pub enum Dispatch {
    /// It asks whether the proxy is well.
    Healthz,
    /// It asks for the metrics.
    Metrics,
    /// It is answered with an error.
    Refused(Reply),
    /// It goes to an upstream.
    Routed(Routed),
}

/// What becomes of a request.
pub enum DispatchView {
    Healthz,
    Metrics,
    Refused(ReplyView),
    Routed { route: Seq<char>, rest: Seq<char>, settings: SettingsView },
}

impl View for Dispatch {
    type V = DispatchView;

    open spec fn view(&self) -> DispatchView {
        match self {
            Dispatch::Healthz => DispatchView::Healthz,
            Dispatch::Metrics => DispatchView::Metrics,
            Dispatch::Refused(reply) => DispatchView::Refused(reply@),
            Dispatch::Routed(routed) => DispatchView::Routed {
                route: routed.route@,
                rest: routed.rest@,
                settings: routed.settings@,
            },
        }
    }
}

/// The message for a route that is not configured.
pub open spec fn unknown_route_message(config: ConfigView, name: Seq<char>) -> Seq<char> {
    "retry-proxy: unknown route \""@ + name + "\". Available routes: "@ + joined(
        names_of(config.routes),
        ", "@,
    )
}

/// The answer to a request for a route that is not configured.
pub open spec fn unknown_route_reply(config: ConfigView, name: Seq<char>) -> ReplyView {
    error_reply(404, unknown_route_message(config, name), "retry_proxy_unknown_route"@)
}

/// What becomes of a request for a path.
pub open spec fn dispatched(config: ConfigView, path: Seq<char>) -> DispatchView {
    if path == "/healthz"@ {
        DispatchView::Healthz
    } else if path == "/metrics"@ {
        DispatchView::Metrics
    } else {
        match route_and_rest(path) {
            Some((route, rest)) => match resolved_route(config, route) {
                Some(settings) => DispatchView::Routed { route, rest, settings },
                None => DispatchView::Refused(unknown_route_reply(config, route)),
            },
            None => DispatchView::Refused(unknown_route_reply(config, path)),
        }
    }
}

/// The answer to a request for a route that is not configured.
fn unknown_route(config: &Config, name: &str) -> (r: Reply)
    ensures
        r@ == unknown_route_reply(config@, name@),
{
    let mut message = "retry-proxy: unknown route \"".to_owned();
    message.append(name);
    message.append("\". Available routes: ");
    message.append(config.route_list().as_str());
    error_response(404, message.as_str(), "retry_proxy_unknown_route")
}

/// Decides what becomes of a request for a path.
pub fn dispatch(config: &Config, path: &str) -> (r: Dispatch)
    ensures
        r@ == dispatched(config@, path@),
{
    if str_eq(path, "/healthz") {
        return Dispatch::Healthz;
    }
    if str_eq(path, "/metrics") {
        return Dispatch::Metrics;
    }
    let (route, rest) = match match_route(path) {
        Some(parts) => parts,
        None => {
            return Dispatch::Refused(unknown_route(config, path));
        },
    };
    match config.resolve_route(route) {
        Some(settings) => Dispatch::Routed(
            Routed { route: route.to_owned(), rest: rest.to_owned(), settings },
        ),
        None => Dispatch::Refused(unknown_route(config, route)),
    }
}

/// A request for a route that is configured takes it, with the settings of the route.
pub proof fn law_configured_route_is_taken(
    config: ConfigView,
    name: Seq<char>,
    rest: Seq<char>,
)
    requires
        name.len() > 0,
        !name.contains('/'),
        resolved_route(config, name) is Some,
    ensures
        dispatched(config, "/"@ + name + "/"@ + rest) == (DispatchView::Routed {
            route: name,
            rest,
            settings: resolved_route(config, name)->0,
        }),
{
    law_route_is_found(name, rest);
    reveal_strlit("/");
    reveal_strlit("/healthz");
    reveal_strlit("/metrics");
    let path = "/"@ + name + "/"@ + rest;
    let k = name.len() as int + 1;
    assert(path[k] == '/');
    assert(forall|i: int| 1 <= i < 8 ==> "/healthz"@[i] != '/');
    assert(forall|i: int| 1 <= i < 8 ==> "/metrics"@[i] != '/');
    assert("/healthz"@.len() == 8);
    assert("/metrics"@.len() == 8);
}

/// A request that is for no route of the configuration is refused, and told which name it gave.
/// Whether the proxy is well and what it measured is asked for by two paths and no others.
pub proof fn law_other_requests(config: ConfigView, path: Seq<char>)
    ensures
        dispatched(config, path) is Healthz <==> path == "/healthz"@,
        dispatched(config, path) is Metrics <==> path == "/metrics"@,
        dispatched(config, path) matches DispatchView::Refused(reply) ==> reply.status == 404
            && reply.body == encode_utf8(
            json_text(
                error_body(
                    "retry-proxy: unknown route \""@ + (match route_and_rest(path) {
                        Some((route, _)) => route,
                        None => path,
                    }) + "\". Available routes: "@ + joined(
                        config.routes.map_values(|entry: (Seq<char>, RouteView)| entry.0),
                        ", "@,
                    ),
                    "retry_proxy_unknown_route"@,
                ),
            ),
        ),
        dispatched(config, path) matches DispatchView::Routed { route, rest, settings } ==> {
            &&& path == "/"@ + route + "/"@ + rest
            &&& route.len() > 0
            &&& !route.contains('/')
            &&& resolved_route(config, route) == Some(settings)
        },
        path != "/healthz"@ && path != "/metrics"@ ==> (dispatched(config, path) is Refused <==> {
            match route_and_rest(path) {
                Some((route, rest)) => resolved_route(config, route) is None,
                None => true,
            }
        }),
{
    assert(config.routes.map_values(|entry: (Seq<char>, RouteView)| entry.0) =~= names_of(
        config.routes,
    ));
    reveal_strlit("/healthz");
    reveal_strlit("/metrics");
    reveal_strlit("/");
    assert("/healthz"@[1] == 'h');
    assert("/metrics"@[1] == 'm');
    if let Some((route, rest)) = route_and_rest(path) {
        let inner = path.skip(1);
        lemma_first_at(inner, '/');
        let k = route.len() as int;
        assert(inner =~= route + "/"@ + rest) by {
            assert(inner[k] == '/');
        }
        assert(path =~= "/"@ + route + "/"@ + rest) by {
            assert(path[0] == "/"@[0]);
        }
        assert(!route.contains('/')) by {
            if route.contains('/') {
                let j = choose|j: int| 0 <= j < route.len() && route[j] == '/';
                assert(inner[j] == '/');
            }
        }
    }
}

/// The address at the upstream is the target, without the slashes at its end, then a slash and the
/// path.
pub proof fn law_address(base: Seq<char>, slashes: nat, path: Seq<char>)
    requires
        base.len() == 0 || base.last() != '/',
    ensures
        upstream_url(base + Seq::new(slashes, |i: int| '/'), path) == base.push('/') + path,
{
    law_without_trailing(base, '/', slashes);
    reveal_strlit("/");
    assert(base + "/"@ =~= base.push('/'));
}

}
