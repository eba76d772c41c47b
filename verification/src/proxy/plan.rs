//! What is sent to the upstream, and how the answer is to be passed on.

use crate::config::{
    last_entry, law_model_entry, resolved_model, ModelView, ResolvedRouteConfig, SettingsView,
};
use crate::headers::{build_forward_headers, forwarded, header_fields};
use crate::json::{
    exact_within, json_parse, json_text, lemma_alike_strings, JsonView, MAX_DEPTH,
};
use crate::log::{extract_model, model_of};
use crate::proxy::relay::relay_of;
use crate::proxy::rewrite::{
    law_bodies_are_rewritten, law_only_the_model_changes, only_model_changed,
    rewrite_model_in_body, rewritten_request, with_model,
};
use crate::proxy::route::{build_upstream_url, upstream_url, Routed};
use crate::reply::{error_reply, error_response, Reply};
use crate::text::{
    after_prefix, law_replaced, law_without_trailing, opt_str, opt_text, replace, replaced,
    stands_at, str_eq, strip_prefix,
};
use crate::transform::request::{
    chat_request, law_settings_arrive, responses_to_chat_request, RESPONSES_TO_CHAT,
};
use vstd::prelude::*;
use vstd::slice::slice_to_vec;
use vstd::string::StringExecFns;
use vstd::utf8::encode_utf8;

verus! {

broadcast use vstd::string::group_string_axioms;

/// What is sent to the upstream, the same for every attempt, and how the answer is to be
/// passed on.
#[derive(Debug)]
pub struct Plan {
    pub route: String,
    /// The model that the client asked for, or nothing.
    pub model: String,
    /// How the log refers to the request.
    pub tag: String,
    /// The settings for the model.
    pub settings: ResolvedRouteConfig,
    pub upstream_url: String,
    pub headers: http::HeaderMap,
    /// The body, if the method has one.
    pub body: Option<Vec<u8>>,
    /// Whether the protocol is transformed.
    pub transform: bool,
    /// The model that the answer is to name.
    pub response_model: Option<String>,
}

/// A plan, without its header fields.
pub struct PlanView {
    pub route: Seq<char>,
    pub model: Seq<char>,
    pub tag: Seq<char>,
    pub settings: SettingsView,
    pub upstream_url: Seq<char>,
    pub body: Option<Seq<u8>>,
    pub transform: bool,
    pub response_model: Option<Seq<char>>,
}

/// The bytes of an optional body.
pub open spec fn opt_bytes(body: Option<Vec<u8>>) -> Option<Seq<u8>> {
    match body {
        Some(bytes) => Some(bytes@),
        None => None,
    }
}

impl View for Plan {
    type V = PlanView;

    open spec fn view(&self) -> PlanView {
        PlanView {
            route: self.route@,
            model: self.model@,
            tag: self.tag@,
            settings: self.settings@,
            upstream_url: self.upstream_url@,
            body: opt_bytes(self.body),
            transform: self.transform,
            response_model: opt_text(self.response_model),
        }
    }
}

// ── The parts of a plan ────────────────────────────────────────────────────

/// Whether requests with this method have a body.
pub open spec fn carries_body(method: Seq<char>) -> bool {
    method != "GET"@ && method != "HEAD"@
}

/// Whether requests with this method have a body.
pub fn has_body(method: &str) -> (r: bool)
    ensures
        r == carries_body(method@),
{
    !str_eq(method, "GET") && !str_eq(method, "HEAD")
}

/// How the log refers to a request.
pub open spec fn tag_of(route: Seq<char>, model: Seq<char>) -> Seq<char> {
    if model.len() > 0 {
        "["@ + route + "|"@ + model + "]"@
    } else {
        "["@ + route + "]"@
    }
}

/// How the log refers to a request.
fn make_tag(route: &str, model: &str) -> (r: String)
    ensures
        r@ == tag_of(route@, model@),
{
    let mut tag = "[".to_owned();
    tag.append(route);
    if !model.is_empty() {
        tag.append("|");
        tag.append(model);
    }
    tag.append("]");
    tag
}

/// The path without the version that it starts with: the target holds one.
pub open spec fn without_version(rest: Seq<char>) -> Seq<char> {
    match after_prefix(rest, "v1/"@) {
        Some(stripped) => stripped,
        None => match after_prefix(rest, "v2/"@) {
            Some(stripped) => stripped,
            None => rest,
        },
    }
}

/// The path at the upstream.
pub open spec fn upstream_path(rest: Seq<char>, transform: bool) -> Seq<char> {
    if transform {
        replaced(without_version(rest), "responses"@, "chat/completions"@)
    } else {
        rest
    }
}

/// The path at the upstream.
fn rewrite_path(rest: &str, transform: bool) -> (r: String)
    ensures
        r@ == upstream_path(rest@, transform),
{
    if !transform {
        return rest.to_owned();
    }
    let stripped = match strip_prefix(rest, "v1/") {
        Some(s) => s,
        None => match strip_prefix(rest, "v2/") {
            Some(s) => s,
            None => rest,
        },
    };
    proof {
        reveal_strlit("responses");
    }
    replace(stripped, "responses", "chat/completions")
}

/// The body with the model that the upstream knows.
pub open spec fn body_with_upstream_model(
    settings: SettingsView,
    model: Seq<char>,
    body: Seq<u8>,
) -> Seq<u8> {
    match settings.upstream_model {
        Some(name) if name != model => rewritten_request(body, name),
        _ => body,
    }
}

/// The body that the upstream gets: transformed, if it can be.
pub open spec fn transformed_body(body: Seq<u8>, transform: bool) -> Seq<u8> {
    match json_parse(body) {
        Some(value) if transform => encode_utf8(json_text(chat_request(value))),
        _ => body,
    }
}

/// If the model is to be mapped and the body names one, the upstream sees its own name for it in
/// whatever it can read. It can read the body for sure if that holds no numbers with a fraction
/// or an exponent, and does not nest too deep.
pub open spec fn upstream_sees_its_model(
    settings: SettingsView,
    model: Seq<char>,
    body: Seq<u8>,
    sent: Seq<u8>,
) -> bool {
    match (settings.upstream_model, json_parse(body)) {
        (Some(name), Some(value)) => {
            let readable = exact_within(value, MAX_DEPTH as nat) && (transforms(settings)
                ==> exact_within(chat_request(with_model(value, name)), MAX_DEPTH as nat));
            name != model && value.get("model"@) is Some ==> {
                &&& readable ==> json_parse(sent) is Some
                &&& json_parse(sent) is Some ==> model_of(sent) == Some(name)
            }
        },
        _ => true,
    }
}

/// Whether the settings ask for the transform.
pub open spec fn transforms(settings: SettingsView) -> bool {
    settings.transform == Some("responses_to_chat"@)
}

/// The plan for a request of a route, given the model that the client asked for.
pub open spec fn plan_of(
    settings: SettingsView,
    route: Seq<char>,
    rest: Seq<char>,
    method: Seq<char>,
    client_model: Option<Seq<char>>,
    body: Seq<u8>,
) -> PlanView {
    let model = match client_model {
        Some(m) => m,
        None => Seq::empty(),
    };
    let own = match client_model {
        Some(m) => resolved_model(settings, m),
        None => settings,
    };
    PlanView {
        route,
        model,
        tag: tag_of(route, model),
        settings: own,
        upstream_url: upstream_url(own.target, upstream_path(rest, transforms(own))),
        body: if carries_body(method) {
            Some(transformed_body(body_with_upstream_model(own, model, body), transforms(own)))
        } else {
            None
        },
        transform: transforms(own),
        response_model: if own.rewrite_response_model {
            Some(model)
        } else {
            None
        },
    }
}

// ── Making a plan ──────────────────────────────────────────────────────────

/// Makes the plan for a request, given the model that the client asked for.
pub fn plan_for(
    routed: &Routed,
    method: &str,
    headers: &http::HeaderMap,
    client_model: Option<&str>,
    body: &Vec<u8>,
) -> (r: Plan)
    ensures
        r@ == plan_of(
            routed.settings@,
            routed.route@,
            routed.rest@,
            method@,
            opt_str(client_model),
            body@,
        ),
        header_fields(r.headers) == forwarded(header_fields(*headers)),
        r.body matches Some(sent) ==> upstream_sees_its_model(
            r@.settings,
            r@.model,
            body@,
            sent@,
        ),
        r@.transform == transformed_for(routed.settings@, opt_str(client_model)),
        r@.upstream_url == upstream_url(
            target_for(routed.settings@, opt_str(client_model)),
            if transformed_for(routed.settings@, opt_str(client_model)) {
                upstream_path(routed.rest@, true)
            } else {
                routed.rest@
            },
        ),
        r@.response_model is Some <==> shows_for(routed.settings@, opt_str(client_model)),
{
    proof {
        lemma_own(routed.settings@, opt_str(client_model));
        reveal_strlit("");
        assert(""@ =~= Seq::<char>::empty());
    }
    let (model, settings) = match client_model {
        Some(m) => (m, routed.settings.resolve_model(m)),
        None => ("", routed.settings.clone()),
    };
    let transform = match &settings.transform {
        Some(t) => str_eq(t.as_str(), RESPONSES_TO_CHAT),
        None => false,
    };
    let body = if has_body(method) {
        Some(make_body(&settings, model, body, transform))
    } else {
        None
    };
    let path = rewrite_path(routed.rest.as_str(), transform);
    let response_model = if settings.rewrite_response_model {
        Some(model.to_owned())
    } else {
        None
    };
    Plan {
        route: routed.route.clone(),
        model: model.to_owned(),
        tag: make_tag(routed.route.as_str(), model),
        upstream_url: build_upstream_url(settings.target.as_str(), path.as_str()),
        settings,
        headers: build_forward_headers(headers),
        body,
        transform,
        response_model,
    }
}

/// The body that the upstream gets.
fn make_body(
    settings: &ResolvedRouteConfig,
    model: &str,
    body: &Vec<u8>,
    transform: bool,
) -> (r: Vec<u8>)
    requires
        transform == transforms(settings@),
    ensures
        r@ == transformed_body(body_with_upstream_model(settings@, model@, body@), transform),
        upstream_sees_its_model(settings@, model@, body@, r@),
{
    let own: Vec<u8> = match &settings.upstream_model {
        Some(name) => if str_eq(name.as_str(), model) {
            slice_to_vec(body.as_slice())
        } else {
            rewrite_model_in_body(body.as_slice(), name.as_str())
        },
        None => slice_to_vec(body.as_slice()),
    };
    proof {
        if let (Some(name), Some(value)) = (settings@.upstream_model, json_parse(body@)) {
            law_only_the_model_changes(value, name, "model"@);
        }
    }
    if transform {
        match responses_to_chat_request(own.as_slice()) {
            Some(converted) => {
                proof {
                    let request = json_parse(own@)->0;
                    law_settings_arrive(request);
                    if let Some(read) = json_parse(converted@) {
                        lemma_alike_strings(
                            chat_request(request),
                            read,
                            MAX_DEPTH as nat,
                            "model"@,
                        );
                    }
                }
                converted
            },
            None => own,
        }
    } else {
        own
    }
}

/// Makes the plan for a request. A request whose method has no body counts as one with an
/// empty body.
pub fn plan(routed: &Routed, method: &str, headers: &http::HeaderMap, body: &Vec<u8>) -> (r: Plan)
    ensures
        r@ == {
            let seen = if carries_body(method@) {
                body@
            } else {
                Seq::empty()
            };
            plan_of(
                routed.settings@,
                routed.route@,
                routed.rest@,
                method@,
                model_of(seen),
                seen,
            )
        },
        header_fields(r.headers) == forwarded(header_fields(*headers)),
        r.body matches Some(sent) ==> upstream_sees_its_model(
            r@.settings,
            r@.model,
            body@,
            sent@,
        ),
        r@.model == asked_model(method@, body@),
{
    if has_body(method) {
        let model = extract_model(body.as_slice());
        match &model {
            Some(m) => plan_for(routed, method, headers, Some(m.as_str()), body),
            None => plan_for(routed, method, headers, None, body),
        }
    } else {
        let nothing: Vec<u8> = Vec::new();
        assert(nothing@ =~= Seq::empty());
        plan_for(routed, method, headers, None, &nothing)
    }
}

/// The answer to a request whose body could not be read.
pub fn unreadable_body(error: &str) -> (r: Reply)
    ensures
        r@ == error_reply(
            400,
            "retry-proxy: failed to read request body: "@ + error@,
            "retry_proxy_read_body_failed"@,
        ),
{
    let mut message = "retry-proxy: failed to read request body: ".to_owned();
    message.append(error);
    error_response(400, message.as_str(), "retry_proxy_read_body_failed")
}

// ── What holds of every plan ───────────────────────────────────────────────

/// Where nothing is to change, the request goes upstream as it is, and the answer comes back as
/// it is.
pub proof fn law_transparent(
    settings: SettingsView,
    route: Seq<char>,
    rest: Seq<char>,
    method: Seq<char>,
    client_model: Option<Seq<char>>,
    body: Seq<u8>,
    answer: Map<Seq<char>, Seq<Seq<u8>>>,
)
    requires
        ({
            let own = plan_of(settings, route, rest, method, client_model, body).settings;
            &&& own.transform is None
            &&& own.upstream_model is None
            &&& !own.rewrite_response_model
        }),
    ensures
        ({
            let plan = plan_of(settings, route, rest, method, client_model, body);
            &&& plan.upstream_url == upstream_url(plan.settings.target, rest)
            &&& carries_body(method) ==> plan.body == Some(body)
            &&& relay_of(plan.transform, plan.response_model, answer) is Pass
        }),
{
}

/// The model decides the upstream: requests of one route for different models go to the
/// targets of their models, and a request without a model to that of the route.
pub proof fn law_model_decides(
    settings: SettingsView,
    route: Seq<char>,
    rest: Seq<char>,
    method: Seq<char>,
    model: Seq<char>,
    body: Seq<u8>,
)
    ensures
        plan_of(settings, route, rest, method, Some(model), body).settings == resolved_model(
            settings,
            model,
        ),
        plan_of(settings, route, rest, method, None, body).settings == settings,
        plan_of(settings, route, rest, method, None, body).upstream_url == upstream_url(
            settings.target,
            upstream_path(rest, transforms(settings)),
        ),
{
}

/// The entry of the model that the client names, if it names one and the route has an entry for
/// it.
pub open spec fn client_entry(
    settings: SettingsView,
    client_model: Option<Seq<char>>,
) -> Option<ModelView> {
    match client_model {
        Some(model) => last_entry(settings.models, model),
        None => None,
    }
}

/// Where a request goes: to the target that the entry of the model names, or else to that of the
/// route.
pub open spec fn target_for(settings: SettingsView, client_model: Option<Seq<char>>) -> Seq<char> {
    match client_entry(settings, client_model) {
        Some(entry) => match entry.target {
            Some(target) => target,
            None => settings.target,
        },
        None => settings.target,
    }
}

/// Whether a request is transformed: if the entry of the model asks for it, or else if the route
/// does.
pub open spec fn transformed_for(
    settings: SettingsView,
    client_model: Option<Seq<char>>,
) -> bool {
    match client_entry(settings, client_model) {
        Some(entry) => match entry.transform {
            Some(transform) => transform == "responses_to_chat"@,
            None => settings.transform == Some("responses_to_chat"@),
        },
        None => settings.transform == Some("responses_to_chat"@),
    }
}

/// The name of the model at the upstream: the one that the entry of the model gives, or else the
/// one that the route gives.
pub open spec fn name_for(
    settings: SettingsView,
    client_model: Option<Seq<char>>,
) -> Option<Seq<char>> {
    match client_entry(settings, client_model) {
        Some(entry) => match entry.upstream_model {
            Some(name) => Some(name),
            None => settings.upstream_model,
        },
        None => settings.upstream_model,
    }
}

/// Whether the answer is to name the model that the client asked for.
pub open spec fn shows_for(settings: SettingsView, client_model: Option<Seq<char>>) -> bool {
    match client_entry(settings, client_model) {
        Some(entry) => match entry.rewrite_response_model {
            Some(rewrite) => rewrite,
            None => settings.rewrite_response_model,
        },
        None => settings.rewrite_response_model,
    }
}

/// Every request goes to the target for the model that its client names, with the transform and
/// without it: the address is that target, without the slashes at its end, then a slash and the
/// path, which is that of the client unless the protocol is transformed.
pub proof fn law_plan_goes_to_its_target(
    settings: SettingsView,
    route: Seq<char>,
    rest: Seq<char>,
    method: Seq<char>,
    client_model: Option<Seq<char>>,
    body: Seq<u8>,
    base: Seq<char>,
    slashes: nat,
)
    requires
        target_for(settings, client_model) == base + Seq::new(slashes, |i: int| '/'),
        base.len() == 0 || base.last() != '/',
    ensures
        ({
            let plan = plan_of(settings, route, rest, method, client_model, body);
            &&& plan.transform == transformed_for(settings, client_model)
            &&& plan.upstream_url == base.push('/') + if transformed_for(settings, client_model) {
                upstream_path(rest, true)
            } else {
                rest
            }
        }),
{
    lemma_own(settings, client_model);
    law_without_trailing(base, '/', slashes);
    reveal_strlit("/");
    assert(base + "/"@ =~= base.push('/'));
}

/// The settings for a model are those that its entry gives.
proof fn lemma_own(settings: SettingsView, client_model: Option<Seq<char>>)
    ensures
        ({
            let own = match client_model {
                Some(m) => resolved_model(settings, m),
                None => settings,
            };
            &&& own.target == target_for(settings, client_model)
            &&& transforms(own) == transformed_for(settings, client_model)
            &&& own.upstream_model == name_for(settings, client_model)
            &&& own.rewrite_response_model == shows_for(settings, client_model)
        }),
{
    if let Some(m) = client_model {
        law_model_entry(settings, m);
    }
    reveal_strlit("none");
    reveal_strlit("responses_to_chat");
    assert("none"@.len() == 4);
    assert("responses_to_chat"@.len() == 17);
}

/// Where the protocol is transformed, the path loses the version that it starts with, and what
/// stands for responses in it stands for chat completions at the upstream; the rest of it stays.
pub proof fn law_path_of_a_transformed_request(before: Seq<char>, after: Seq<char>)
    requires
        ({
            let path = before + "responses"@ + after;
            forall|i: int|
                0 <= i < path.len() && i != before.len() ==> !#[trigger] stands_at(
                    path,
                    "responses"@,
                    i,
                )
        }),
        before.len() < 3 || (before.take(3) != "v1/"@ && before.take(3) != "v2/"@),
    ensures
        ({
            let path = before + "responses"@ + after;
            let there = before + "chat/completions"@ + after;
            &&& upstream_path("v1/"@ + path, true) == there
            &&& upstream_path("v2/"@ + path, true) == there
            &&& upstream_path(path, true) == there
            &&& upstream_path(path, false) == path
        }),
{
    let path = before + "responses"@ + after;
    let pattern = "responses"@;
    let by = "chat/completions"@;
    let k = before.len() as int;
    let there = before + by + after;
    reveal_strlit("responses");
    reveal_strlit("v1/");
    reveal_strlit("v2/");
    assert(pattern.len() == 9);
    assert("v1/"@.len() == 3);
    assert("v2/"@.len() == 3);
    assert(path.subrange(k, k + 9) =~= pattern);
    assert(stands_at(path, pattern, k));
    assert forall|i: int| 0 <= i < k implies !#[trigger] stands_at(path, pattern, i) by {}
    law_replaced(path, pattern, by, k);
    assert(path.take(k) =~= before);
    assert(path.skip(k + 9) =~= after);
    assert forall|i: int| 0 <= i < after.len() implies !#[trigger] stands_at(
        after,
        pattern,
        i,
    ) by {
        if stands_at(after, pattern, i) {
            assert(path.subrange(k + 9 + i, k + 9 + i + 9) =~= after.subrange(i, i + 9));
            assert(stands_at(path, pattern, k + 9 + i));
        }
    }
    law_replaced(after, pattern, by, after.len() as int);
    assert(replaced(path, pattern, by) == there);
    let one = "v1/"@ + path;
    let two = "v2/"@ + path;
    assert(one.take(3) =~= "v1/"@);
    assert(two.take(3) =~= "v2/"@);
    assert(one.skip(3) =~= path);
    assert(two.skip(3) =~= path);
    assert("v1/"@[1] == '1' && "v2/"@[1] == '2');
    assert(!"v1/"@.is_prefix_of(two)) by {
        assert(two[1] == '2');
    }
    assert("responses"@[0] == 'r' && "responses"@[1] == 'e' && "responses"@[2] == 's');
    assert("v1/"@[0] == 'v' && "v2/"@[0] == 'v' && "v1/"@[2] == '/' && "v2/"@[2] == '/');
    assert(!"v1/"@.is_prefix_of(path) && !"v2/"@.is_prefix_of(path)) by {
        if before.len() >= 3 {
            assert(path.take(3) =~= before.take(3));
            if "v1/"@.is_prefix_of(path) {
                assert(path.take(3) =~= "v1/"@);
            }
            if "v2/"@.is_prefix_of(path) {
                assert(path.take(3) =~= "v2/"@);
            }
        } else if before.len() == 0 {
            assert(path[0] == 'r');
        } else if before.len() == 1 {
            assert(path[1] == 'r');
        } else {
            assert(path[2] == 'r');
        }
    }
}

/// A path in which nothing stands for responses loses the version that it starts with, and stays as
/// it is otherwise.
pub proof fn law_other_path_of_a_transformed_request(path: Seq<char>)
    requires
        forall|i: int| 0 <= i < path.len() ==> !#[trigger] stands_at(path, "responses"@, i),
    ensures
        upstream_path("v1/"@ + path, true) == path,
        upstream_path("v2/"@ + path, true) == path,
        path.len() < 3 || (path.take(3) != "v1/"@ && path.take(3) != "v2/"@) ==> upstream_path(
            path,
            true,
        ) == path,
        upstream_path(path, false) == path,
{
    reveal_strlit("responses");
    reveal_strlit("v1/");
    reveal_strlit("v2/");
    assert("v1/"@.len() == 3);
    assert("v2/"@.len() == 3);
    law_replaced(path, "responses"@, "chat/completions"@, path.len() as int);
    let one = "v1/"@ + path;
    let two = "v2/"@ + path;
    assert(one.take(3) =~= "v1/"@);
    assert(two.take(3) =~= "v2/"@);
    assert(one.skip(3) =~= path);
    assert(two.skip(3) =~= path);
    assert("v1/"@[1] == '1' && "v2/"@[1] == '2');
    assert(!"v1/"@.is_prefix_of(two)) by {
        assert(two[1] == '2');
    }
    if path.len() < 3 || (path.take(3) != "v1/"@ && path.take(3) != "v2/"@) {
        if "v1/"@.is_prefix_of(path) {
            assert(path.take(3) =~= "v1/"@);
        }
        if "v2/"@.is_prefix_of(path) {
            assert(path.take(3) =~= "v2/"@);
        }
    }
}

/// What is sent, and what the answer is to name. A method without a body sends none. Otherwise the
/// body goes as it is, unless the upstream has another name for the model, which then takes the
/// place of the one in the body, and unless the protocol is transformed. The answer names the model
/// that the client asked for if, and only if, the settings for that model say so.
pub proof fn law_plan_sends_the_body(
    settings: SettingsView,
    route: Seq<char>,
    rest: Seq<char>,
    method: Seq<char>,
    client_model: Option<Seq<char>>,
    body: Seq<u8>,
)
    ensures
        ({
            let plan = plan_of(settings, route, rest, method, client_model, body);
            let asked = match client_model {
                Some(model) => model,
                None => Seq::empty(),
            };
            let renamed = match name_for(settings, client_model) {
                Some(name) => name != asked,
                None => false,
            };
            let transformed = transformed_for(settings, client_model);
            &&& plan.route == route
            &&& plan.model == asked
            &&& plan.tag == if asked.len() == 0 {
                "["@ + route + "]"@
            } else {
                "["@ + route + "|"@ + asked + "]"@
            }
            &&& plan.response_model == if shows_for(settings, client_model) {
                Some(asked)
            } else {
                None
            }
            &&& plan.body is None <==> (method == "GET"@ || method == "HEAD"@)
            &&& plan.body matches Some(sent) ==> match json_parse(body) {
                None => sent == body,
                Some(value) => {
                    &&& !transformed && (!renamed || value.get("model"@) is None) ==> sent == body
                    &&& !transformed && renamed && value.get("model"@) is Some ==> exists|
                        changed: JsonView,
                    |
                        only_model_changed(
                            value,
                            name_for(settings, client_model)->0,
                            changed,
                        ) && sent == encode_utf8(#[trigger] json_text(changed))
                    &&& transformed && (!renamed || value.get("model"@) is None) ==> sent
                        == encode_utf8(json_text(chat_request(value)))
                    &&& transformed && renamed && value.get("model"@) is Some ==> exists|
                        changed: JsonView,
                    |
                        only_model_changed(
                            value,
                            name_for(settings, client_model)->0,
                            changed,
                        ) && sent == match json_parse(encode_utf8(#[trigger] json_text(changed))) {
                            Some(read) => encode_utf8(json_text(chat_request(read))),
                            None => encode_utf8(json_text(changed)),
                        }
                },
            }
        }),
{
    lemma_own(settings, client_model);
    if let Some(name) = name_for(settings, client_model) {
        law_bodies_are_rewritten(body, name);
    }
}

/// The model that a request asks for: the one that its body names, if its method has a body and that
/// is an object whose member `model` is a string.
pub open spec fn asked_model(method: Seq<char>, body: Seq<u8>) -> Seq<char> {
    if method == "GET"@ || method == "HEAD"@ || body.len() == 0 {
        Seq::empty()
    } else {
        match json_parse(body) {
            Some(JsonView::Object(members)) if members.contains_key("model"@) => {
                match members["model"@] {
                    JsonView::Str(model) => model,
                    _ => Seq::empty(),
                }
            },
            _ => Seq::empty(),
        }
    }
}

/// Everything in a path that stands for responses stands for chat completions at the upstream: the
/// first occurrence, at place `k`, and whatever stands behind it in the same way.
pub proof fn law_every_occurrence_in_a_path(path: Seq<char>, k: int)
    requires
        stands_at(path, "responses"@, k),
        forall|i: int| 0 <= i < k ==> !#[trigger] stands_at(path, "responses"@, i),
    ensures
        upstream_path("v1/"@ + path, true) == path.take(k) + "chat/completions"@ + upstream_path(
            "v1/"@ + path.skip(k + 9),
            true,
        ),
        upstream_path("v2/"@ + path, true) == upstream_path("v1/"@ + path, true),
{
    reveal_strlit("responses");
    reveal_strlit("v1/");
    reveal_strlit("v2/");
    assert("responses"@.len() == 9);
    assert("v1/"@.len() == 3);
    assert("v2/"@.len() == 3);
    law_replaced(path, "responses"@, "chat/completions"@, k);
    let one = "v1/"@ + path;
    let two = "v2/"@ + path;
    let rest = "v1/"@ + path.skip(k + 9);
    assert(one.take(3) =~= "v1/"@);
    assert(two.take(3) =~= "v2/"@);
    assert(rest.take(3) =~= "v1/"@);
    assert(one.skip(3) =~= path);
    assert(two.skip(3) =~= path);
    assert(rest.skip(3) =~= path.skip(k + 9));
    assert("v1/"@[1] == '1' && "v2/"@[1] == '2');
    assert(!"v1/"@.is_prefix_of(two)) by {
        assert(two[1] == '2');
    }
}

}
