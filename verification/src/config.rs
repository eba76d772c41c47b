//! Configuration: routes, what each of them overrides, and what each model overrides in turn.
//!
//! A setting is looked up in three places: in the model's entry of the route, in the route, and
//! in the defaults. The first place that names it counts.

use crate::entries::{
    distinct, entries_map, find_entry, insert_entry, lemma_found, lemma_placed, named, viewed,
};
use crate::text::{has_char, joined, opt_str, opt_text, str_eq};
use vstd::prelude::*;
use vstd::string::StringExecFns;

verus! {

broadcast use vstd::string::group_string_axioms;

// ── What is configured ─────────────────────────────────────────────────────

/// The whole configuration. Of routes with the same name the last one counts.
#[derive(Debug)]
pub struct Config {
    pub defaults: Defaults,
    pub routes: Vec<(String, Route)>,
}

/// Settings for all routes that do not override them.
#[derive(Debug)]
pub struct Defaults {
    pub max_retries: u32,
    pub base_delay_ms: u64,
    pub max_delay_ms: u64,
    /// The longest time that a request may wait in all; zero for no limit.
    pub max_total_wait_ms: u64,
    pub connect_timeout_secs: u64,
    pub retry_status_codes: Vec<u16>,
}

/// What a model overrides. Only the fields that are given do.
#[derive(Debug)]
pub struct ModelConfig {
    pub target: Option<String>,
    /// `responses_to_chat`, or `none` for no transform.
    pub transform: Option<String>,
    /// The name of the model in the request to the upstream.
    pub upstream_model: Option<String>,
    /// Whether responses name the model that the client asked for.
    pub rewrite_response_model: Option<bool>,
    pub max_retries: Option<u32>,
    pub base_delay_ms: Option<u64>,
    pub max_delay_ms: Option<u64>,
    pub max_total_wait_ms: Option<u64>,
    pub connect_timeout_secs: Option<u64>,
    pub retry_status_codes: Option<Vec<u16>>,
}

/// A route: where its requests go, and what it overrides. Of models with the same name the
/// last one counts.
#[derive(Debug)]
pub struct Route {
    pub target: String,
    /// `responses_to_chat`, or `none` for no transform.
    pub transform: Option<String>,
    /// The name of the model in the request to the upstream.
    pub upstream_model: Option<String>,
    /// Whether responses name the model that the client asked for.
    pub rewrite_response_model: Option<bool>,
    /// What models override, by the name that the client uses.
    pub models: Vec<(String, ModelConfig)>,
    pub max_retries: Option<u32>,
    pub base_delay_ms: Option<u64>,
    pub max_delay_ms: Option<u64>,
    pub max_total_wait_ms: Option<u64>,
    pub connect_timeout_secs: Option<u64>,
    pub retry_status_codes: Option<Vec<u16>>,
}

/// The settings for a route, or for a model of a route.
#[derive(Debug)]
pub struct ResolvedRouteConfig {
    pub target: String,
    pub transform: Option<String>,
    pub upstream_model: Option<String>,
    pub rewrite_response_model: bool,
    pub models: Vec<(String, ModelConfig)>,
    pub max_retries: u32,
    pub base_delay_ms: u64,
    pub max_delay_ms: u64,
    pub max_total_wait_ms: u64,
    pub connect_timeout_secs: u64,
    pub retry_status_codes: Vec<u16>,
}

/// What is wrong with a configuration.
#[derive(Debug)]
pub struct ConfigError(pub String);

// ── The model ──────────────────────────────────────────────────────────────

/// The whole configuration.
pub struct ConfigView {
    pub defaults: DefaultsView,
    pub routes: Seq<(Seq<char>, RouteView)>,
}

/// Settings for all routes that do not override them.
pub struct DefaultsView {
    pub max_retries: u32,
    pub base_delay_ms: u64,
    pub max_delay_ms: u64,
    pub max_total_wait_ms: u64,
    pub connect_timeout_secs: u64,
    pub retry_status_codes: Seq<u16>,
}

/// What a model overrides.
pub struct ModelView {
    pub target: Option<Seq<char>>,
    pub transform: Option<Seq<char>>,
    pub upstream_model: Option<Seq<char>>,
    pub rewrite_response_model: Option<bool>,
    pub max_retries: Option<u32>,
    pub base_delay_ms: Option<u64>,
    pub max_delay_ms: Option<u64>,
    pub max_total_wait_ms: Option<u64>,
    pub connect_timeout_secs: Option<u64>,
    pub retry_status_codes: Option<Seq<u16>>,
}

/// A route.
pub struct RouteView {
    pub target: Seq<char>,
    pub transform: Option<Seq<char>>,
    pub upstream_model: Option<Seq<char>>,
    pub rewrite_response_model: Option<bool>,
    pub models: Seq<(Seq<char>, ModelView)>,
    pub max_retries: Option<u32>,
    pub base_delay_ms: Option<u64>,
    pub max_delay_ms: Option<u64>,
    pub max_total_wait_ms: Option<u64>,
    pub connect_timeout_secs: Option<u64>,
    pub retry_status_codes: Option<Seq<u16>>,
}

/// The settings for a route, or for a model of a route.
pub struct SettingsView {
    pub target: Seq<char>,
    pub transform: Option<Seq<char>>,
    pub upstream_model: Option<Seq<char>>,
    pub rewrite_response_model: bool,
    pub models: Seq<(Seq<char>, ModelView)>,
    pub max_retries: u32,
    pub base_delay_ms: u64,
    pub max_delay_ms: u64,
    pub max_total_wait_ms: u64,
    pub connect_timeout_secs: u64,
    pub retry_status_codes: Seq<u16>,
}

/// The codes of an optional list.
pub open spec fn opt_codes(codes: Option<Vec<u16>>) -> Option<Seq<u16>> {
    match codes {
        Some(list) => Some(list@),
        None => None,
    }
}

impl View for Defaults {
    type V = DefaultsView;

    open spec fn view(&self) -> DefaultsView {
        DefaultsView {
            max_retries: self.max_retries,
            base_delay_ms: self.base_delay_ms,
            max_delay_ms: self.max_delay_ms,
            max_total_wait_ms: self.max_total_wait_ms,
            connect_timeout_secs: self.connect_timeout_secs,
            retry_status_codes: self.retry_status_codes@,
        }
    }
}

impl View for ModelConfig {
    type V = ModelView;

    open spec fn view(&self) -> ModelView {
        ModelView {
            target: opt_text(self.target),
            transform: opt_text(self.transform),
            upstream_model: opt_text(self.upstream_model),
            rewrite_response_model: self.rewrite_response_model,
            max_retries: self.max_retries,
            base_delay_ms: self.base_delay_ms,
            max_delay_ms: self.max_delay_ms,
            max_total_wait_ms: self.max_total_wait_ms,
            connect_timeout_secs: self.connect_timeout_secs,
            retry_status_codes: opt_codes(self.retry_status_codes),
        }
    }
}

/// What is seen of the entries of models.
pub open spec fn models_view(models: Seq<(String, ModelConfig)>) -> Seq<(Seq<char>, ModelView)> {
    viewed(models, |m: ModelConfig| m@)
}

impl View for Route {
    type V = RouteView;

    open spec fn view(&self) -> RouteView {
        RouteView {
            target: self.target@,
            transform: opt_text(self.transform),
            upstream_model: opt_text(self.upstream_model),
            rewrite_response_model: self.rewrite_response_model,
            models: models_view(self.models@),
            max_retries: self.max_retries,
            base_delay_ms: self.base_delay_ms,
            max_delay_ms: self.max_delay_ms,
            max_total_wait_ms: self.max_total_wait_ms,
            connect_timeout_secs: self.connect_timeout_secs,
            retry_status_codes: opt_codes(self.retry_status_codes),
        }
    }
}

impl View for Config {
    type V = ConfigView;

    open spec fn view(&self) -> ConfigView {
        ConfigView {
            defaults: self.defaults@,
            routes: viewed(self.routes@, |r: Route| r@),
        }
    }
}

impl View for ResolvedRouteConfig {
    type V = SettingsView;

    open spec fn view(&self) -> SettingsView {
        SettingsView {
            target: self.target@,
            transform: opt_text(self.transform),
            upstream_model: opt_text(self.upstream_model),
            rewrite_response_model: self.rewrite_response_model,
            models: models_view(self.models@),
            max_retries: self.max_retries,
            base_delay_ms: self.base_delay_ms,
            max_delay_ms: self.max_delay_ms,
            max_total_wait_ms: self.max_total_wait_ms,
            connect_timeout_secs: self.connect_timeout_secs,
            retry_status_codes: self.retry_status_codes@,
        }
    }
}

/// The names of entries.
pub open spec fn names_of<T>(entries: Seq<(Seq<char>, T)>) -> Seq<Seq<char>> {
    entries.map_values(|e: (Seq<char>, T)| e.0)
}

/// The characters of each string slice of a list.
pub open spec fn strs(list: Seq<&str>) -> Seq<Seq<char>> {
    list.map_values(|s: &str| s@)
}

impl ConfigView {
    /// No route, and no model of a route, is configured twice.
    pub open spec fn wf(self) -> bool {
        &&& distinct(self.routes)
        &&& forall|i: int|
            0 <= i < self.routes.len() ==> distinct((#[trigger] self.routes[i]).1.models)
    }
}

// ── Looking settings up ────────────────────────────────────────────────────

/// The value that is given, or the other one.
pub open spec fn or<T>(given: Option<T>, other: T) -> T {
    match given {
        Some(v) => v,
        None => other,
    }
}

/// The transform that a setting asks for: `none` asks for none.
pub open spec fn asked_transform(setting: Option<Seq<char>>) -> Option<Seq<char>> {
    if setting == Some("none"@) {
        None
    } else {
        setting
    }
}

/// The settings of a route: what it names, and the defaults for the rest.
pub open spec fn route_settings(route: RouteView, d: DefaultsView) -> SettingsView {
    SettingsView {
        target: route.target,
        transform: asked_transform(route.transform),
        upstream_model: route.upstream_model,
        rewrite_response_model: or(route.rewrite_response_model, false),
        models: route.models,
        max_retries: or(route.max_retries, d.max_retries),
        base_delay_ms: or(route.base_delay_ms, d.base_delay_ms),
        max_delay_ms: or(route.max_delay_ms, d.max_delay_ms),
        max_total_wait_ms: or(route.max_total_wait_ms, d.max_total_wait_ms),
        connect_timeout_secs: or(route.connect_timeout_secs, d.connect_timeout_secs),
        retry_status_codes: or(route.retry_status_codes, d.retry_status_codes),
    }
}

/// The settings of the route with this name, if there is one.
pub open spec fn resolved_route(config: ConfigView, name: Seq<char>) -> Option<SettingsView> {
    let routes = entries_map(config.routes);
    if routes.contains_key(name) {
        Some(route_settings(routes[name], config.defaults))
    } else {
        None
    }
}

/// The settings of a model: what it names, and those of the route for the rest.
pub open spec fn model_settings(s: SettingsView, m: ModelView) -> SettingsView {
    SettingsView {
        target: or(m.target, s.target),
        transform: match m.transform {
            Some(t) => asked_transform(Some(t)),
            None => s.transform,
        },
        upstream_model: match m.upstream_model {
            Some(u) => Some(u),
            None => s.upstream_model,
        },
        rewrite_response_model: or(m.rewrite_response_model, s.rewrite_response_model),
        models: s.models,
        max_retries: or(m.max_retries, s.max_retries),
        base_delay_ms: or(m.base_delay_ms, s.base_delay_ms),
        max_delay_ms: or(m.max_delay_ms, s.max_delay_ms),
        max_total_wait_ms: or(m.max_total_wait_ms, s.max_total_wait_ms),
        connect_timeout_secs: or(m.connect_timeout_secs, s.connect_timeout_secs),
        retry_status_codes: or(m.retry_status_codes, s.retry_status_codes),
    }
}

/// The settings for a model: those of its entry, or those of the route if it has none.
pub open spec fn resolved_model(s: SettingsView, model: Seq<char>) -> SettingsView {
    let models = entries_map(s.models);
    if models.contains_key(model) {
        model_settings(s, models[model])
    } else {
        s
    }
}

// ── Copies ─────────────────────────────────────────────────────────────────

/// A copy of an optional string.
fn copy_text(s: &Option<String>) -> (r: Option<String>)
    ensures
        opt_text(r) == opt_text(*s),
{
    match s {
        Some(text) => Some(text.clone()),
        None => None,
    }
}

/// A copy of a list of codes.
fn copy_codes(codes: &Vec<u16>) -> (r: Vec<u16>)
    ensures
        r@ == codes@,
{
    let r = codes.clone();
    assert(r@ =~= codes@);
    r
}

/// A copy of an optional list of codes.
fn copy_opt_codes(codes: &Option<Vec<u16>>) -> (r: Option<Vec<u16>>)
    ensures
        opt_codes(r) == opt_codes(*codes),
{
    match codes {
        Some(list) => Some(copy_codes(list)),
        None => None,
    }
}

/// A copy of the entries of models.
fn copy_models(models: &Vec<(String, ModelConfig)>) -> (r: Vec<(String, ModelConfig)>)
    ensures
        models_view(r@) == models_view(models@),
{
    let mut copy: Vec<(String, ModelConfig)> = Vec::new();
    let mut i: usize = 0;
    while i < models.len()
        invariant
            i <= models@.len(),
            copy@.len() == i,
            forall|j: int|
                0 <= j < i ==> (#[trigger] copy@[j]).0@ == models@[j].0@ && copy@[j].1@
                    == models@[j].1@,
        decreases models@.len() - i,
    {
        copy.push((models[i].0.clone(), models[i].1.clone()));
        i += 1;
    }
    assert(models_view(copy@) =~= models_view(models@));
    copy
}

impl Clone for Defaults {
    fn clone(&self) -> (r: Self)
        ensures
            r@ == self@,
    {
        Defaults {
            max_retries: self.max_retries,
            base_delay_ms: self.base_delay_ms,
            max_delay_ms: self.max_delay_ms,
            max_total_wait_ms: self.max_total_wait_ms,
            connect_timeout_secs: self.connect_timeout_secs,
            retry_status_codes: copy_codes(&self.retry_status_codes),
        }
    }
}

impl Clone for ModelConfig {
    fn clone(&self) -> (r: Self)
        ensures
            r@ == self@,
    {
        ModelConfig {
            target: copy_text(&self.target),
            transform: copy_text(&self.transform),
            upstream_model: copy_text(&self.upstream_model),
            rewrite_response_model: self.rewrite_response_model,
            max_retries: self.max_retries,
            base_delay_ms: self.base_delay_ms,
            max_delay_ms: self.max_delay_ms,
            max_total_wait_ms: self.max_total_wait_ms,
            connect_timeout_secs: self.connect_timeout_secs,
            retry_status_codes: copy_opt_codes(&self.retry_status_codes),
        }
    }
}

impl Clone for Route {
    fn clone(&self) -> (r: Self)
        ensures
            r@ == self@,
    {
        Route {
            target: self.target.clone(),
            transform: copy_text(&self.transform),
            upstream_model: copy_text(&self.upstream_model),
            rewrite_response_model: self.rewrite_response_model,
            models: copy_models(&self.models),
            max_retries: self.max_retries,
            base_delay_ms: self.base_delay_ms,
            max_delay_ms: self.max_delay_ms,
            max_total_wait_ms: self.max_total_wait_ms,
            connect_timeout_secs: self.connect_timeout_secs,
            retry_status_codes: copy_opt_codes(&self.retry_status_codes),
        }
    }
}

impl Clone for ResolvedRouteConfig {
    fn clone(&self) -> (r: Self)
        ensures
            r@ == self@,
    {
        ResolvedRouteConfig {
            target: self.target.clone(),
            transform: copy_text(&self.transform),
            upstream_model: copy_text(&self.upstream_model),
            rewrite_response_model: self.rewrite_response_model,
            models: copy_models(&self.models),
            max_retries: self.max_retries,
            base_delay_ms: self.base_delay_ms,
            max_delay_ms: self.max_delay_ms,
            max_total_wait_ms: self.max_total_wait_ms,
            connect_timeout_secs: self.connect_timeout_secs,
            retry_status_codes: copy_codes(&self.retry_status_codes),
        }
    }
}

impl Clone for Config {
    fn clone(&self) -> (r: Self)
        ensures
            r@ == self@,
    {
        let mut routes: Vec<(String, Route)> = Vec::new();
        let mut i: usize = 0;
        while i < self.routes.len()
            invariant
                i <= self.routes@.len(),
                routes@.len() == i,
                forall|j: int|
                    0 <= j < i ==> (#[trigger] routes@[j]).0@ == self.routes@[j].0@ && routes@[j].1@
                        == self.routes@[j].1@,
            decreases self.routes@.len() - i,
        {
            routes.push((self.routes[i].0.clone(), self.routes[i].1.clone()));
            i += 1;
        }
        let config = Config { defaults: self.defaults.clone(), routes };
        assert(config@.routes =~= self@.routes);
        config
    }
}

// ── The defaults ───────────────────────────────────────────────────────────

/// The status codes that are tried again unless configured otherwise.
pub open spec fn usual_status_codes() -> Seq<u16> {
    seq![429u16, 500, 502, 503, 504, 408, 529]
}

/// How often a request is tried unless configured otherwise.
pub fn default_max_retries() -> (r: u32)
    ensures
        r == 9999,
{
    9999
}

/// The first delay unless configured otherwise.
pub fn default_base_delay_ms() -> (r: u64)
    ensures
        r == 1000,
{
    1000
}

/// The longest delay unless configured otherwise.
pub fn default_max_delay_ms() -> (r: u64)
    ensures
        r == 60000,
{
    60000
}

/// How long to wait for a connection unless configured otherwise.
pub fn default_connect_timeout_secs() -> (r: u64)
    ensures
        r == 30,
{
    30
}

/// The status codes that are tried again unless configured otherwise.
pub fn default_retry_status_codes() -> (r: Vec<u16>)
    ensures
        r@ == usual_status_codes(),
{
    let codes: Vec<u16> = vec![429, 500, 502, 503, 504, 408, 529];
    assert(codes@ =~= usual_status_codes());
    codes
}

impl Default for Defaults {
    fn default() -> (r: Self)
        ensures
            r@ == (DefaultsView {
                max_retries: 9999,
                base_delay_ms: 1000,
                max_delay_ms: 60000,
                max_total_wait_ms: 0,
                connect_timeout_secs: 30,
                retry_status_codes: usual_status_codes(),
            }),
    {
        Defaults {
            max_retries: default_max_retries(),
            base_delay_ms: default_base_delay_ms(),
            max_delay_ms: default_max_delay_ms(),
            max_total_wait_ms: 0,
            connect_timeout_secs: default_connect_timeout_secs(),
            retry_status_codes: default_retry_status_codes(),
        }
    }
}

/// The transform that a setting asks for: `none` asks for none.
pub fn normalize_transform(t: &Option<String>) -> (r: Option<String>)
    ensures
        opt_text(r) == asked_transform(opt_text(*t)),
{
    match t {
        Some(s) => if str_eq(s.as_str(), "none") {
            None
        } else {
            Some(s.clone())
        },
        None => None,
    }
}

// ── Resolving ──────────────────────────────────────────────────────────────

impl Config {
    /// The settings of the route with this name, if there is one.
    pub fn resolve_route(&self, name: &str) -> (r: Option<ResolvedRouteConfig>)
        ensures
            match r {
                Some(s) => resolved_route(self@, name@) == Some(s@),
                None => resolved_route(self@, name@) is None,
            },
    {
        let found = find_entry(&self.routes, name);
        proof {
            lemma_found(self.routes@, name@, found, |r: Route| r@);
        }
        let route = match found {
            Some(i) => &self.routes[i].1,
            None => {
                return None;
            },
        };
        let d = &self.defaults;
        Some(
            ResolvedRouteConfig {
                target: route.target.clone(),
                transform: normalize_transform(&route.transform),
                upstream_model: copy_text(&route.upstream_model),
                rewrite_response_model: route.rewrite_response_model.unwrap_or(false),
                models: copy_models(&route.models),
                max_retries: route.max_retries.unwrap_or(d.max_retries),
                base_delay_ms: route.base_delay_ms.unwrap_or(d.base_delay_ms),
                max_delay_ms: route.max_delay_ms.unwrap_or(d.max_delay_ms),
                max_total_wait_ms: route.max_total_wait_ms.unwrap_or(d.max_total_wait_ms),
                connect_timeout_secs: route.connect_timeout_secs.unwrap_or(d.connect_timeout_secs),
                retry_status_codes: match &route.retry_status_codes {
                    Some(codes) => copy_codes(codes),
                    None => copy_codes(&d.retry_status_codes),
                },
            },
        )
    }

    /// The names of the routes, in the order of their entries.
    pub fn route_names(&self) -> (r: Vec<&str>)
        ensures
            strs(r@) == names_of(self@.routes),
    {
        let mut names: Vec<&str> = Vec::new();
        let mut i: usize = 0;
        while i < self.routes.len()
            invariant
                i <= self.routes@.len(),
                names@.len() == i,
                forall|j: int| 0 <= j < i ==> (#[trigger] names@[j])@ == self.routes@[j].0@,
            decreases self.routes@.len() - i,
        {
            names.push(self.routes[i].0.as_str());
            i += 1;
        }
        assert(strs(names@) =~= names_of(self@.routes));
        names
    }

    /// The names of the routes, with commas between them.
    pub fn route_list(&self) -> (r: String)
        ensures
            r@ == joined(names_of(self@.routes), ", "@),
    {
        let ghost all = names_of(self@.routes);
        let mut out = String::new();
        let mut i: usize = 0;
        assert(all.take(0) =~= Seq::<Seq<char>>::empty());
        while i < self.routes.len()
            invariant
                all == names_of(self@.routes),
                i <= self.routes@.len(),
                out@ == joined(all.take(i as int), ", "@),
            decreases self.routes@.len() - i,
        {
            assert(all.take(i + 1).drop_last() =~= all.take(i as int));
            if i > 0 {
                out.append(", ");
            } else {
                assert(out@ + all[0] =~= all[0]);
            }
            out.append(self.routes[i].0.as_str());
            i += 1;
        }
        assert(all.take(all.len() as int) =~= all);
        out
    }

    /// A configuration without routes.
    pub fn new(defaults: Defaults) -> (r: Self)
        ensures
            r@ == (ConfigView { defaults: defaults@, routes: Seq::empty() }),
            r@.wf(),
    {
        let config = Config { defaults, routes: Vec::new() };
        assert(config@.routes =~= Seq::empty());
        config
    }

    /// Puts a route under its name, in place of the one that has it.
    pub fn insert_route(&mut self, name: String, route: Route)
        ensures
            final(self)@.defaults == old(self)@.defaults,
            entries_map(final(self)@.routes) == entries_map(old(self)@.routes).insert(
                name@,
                route@,
            ),
            old(self)@.wf() && distinct(route@.models) ==> final(self)@.wf(),
    {
        let ghost before = self.routes@;
        let ghost f = |r: Route| r@;
        let ghost n = name;
        let ghost v = route;
        proof {
            lemma_same_names(before, f);
        }
        insert_entry(&mut self.routes, name, route);
        proof {
            lemma_placed(before, self.routes@, n, v, f);
            lemma_same_names(self.routes@, f);
            if old(self)@.wf() && distinct(v@.models) {
                assert forall|i: int| 0 <= i < self@.routes.len() implies distinct(
                    (#[trigger] self@.routes[i]).1.models,
                ) by {
                    assert(self@.routes[i].1 == v@ || self@.routes[i].1
                        == old(self)@.routes[i].1);
                }
            }
        }
    }
}

impl Route {
    /// Puts what a model overrides under its name, in place of what is there.
    pub fn insert_model(&mut self, name: String, model: ModelConfig)
        ensures
            final(self)@ == (RouteView { models: final(self)@.models, ..old(self)@ }),
            entries_map(final(self)@.models) == entries_map(old(self)@.models).insert(
                name@,
                model@,
            ),
            distinct(old(self)@.models) ==> distinct(final(self)@.models),
    {
        let ghost before = self.models@;
        let ghost f = |m: ModelConfig| m@;
        let ghost n = name;
        let ghost v = model;
        proof {
            lemma_same_names(before, f);
        }
        insert_entry(&mut self.models, name, model);
        proof {
            lemma_placed(before, self.models@, n, v, f);
            lemma_same_names(self.models@, f);
        }
    }
}

/// What is seen of the values plays no part in whether names are distinct.
proof fn lemma_same_names<V, T>(entries: Seq<(String, V)>, f: spec_fn(V) -> T)
    ensures
        distinct(named(entries)) <==> distinct(viewed(entries, f)),
{
    let a = named(entries);
    let b = viewed(entries, f);
    assert forall|i: int| 0 <= i < entries.len() implies #[trigger] a[i].0 == b[i].0 by {}
    assert forall|i: int| 0 <= i < entries.len() implies #[trigger] b[i].0 == a[i].0 by {}
}

impl ResolvedRouteConfig {
    /// The settings for a model: what its entry overrides, and these for the rest. A model
    /// without an entry has these.
    pub fn resolve_model(&self, model: &str) -> (r: ResolvedRouteConfig)
        ensures
            r@ == resolved_model(self@, model@),
    {
        let found = find_entry(&self.models, model);
        proof {
            lemma_found(self.models@, model@, found, |m: ModelConfig| m@);
        }
        let mc = match found {
            Some(i) => &self.models[i].1,
            None => {
                return self.clone();
            },
        };
        ResolvedRouteConfig {
            target: match &mc.target {
                Some(t) => t.clone(),
                None => self.target.clone(),
            },
            transform: match &mc.transform {
                Some(_) => normalize_transform(&mc.transform),
                None => copy_text(&self.transform),
            },
            upstream_model: match &mc.upstream_model {
                Some(u) => Some(u.clone()),
                None => copy_text(&self.upstream_model),
            },
            rewrite_response_model: mc.rewrite_response_model.unwrap_or(
                self.rewrite_response_model,
            ),
            models: copy_models(&self.models),
            max_retries: mc.max_retries.unwrap_or(self.max_retries),
            base_delay_ms: mc.base_delay_ms.unwrap_or(self.base_delay_ms),
            max_delay_ms: mc.max_delay_ms.unwrap_or(self.max_delay_ms),
            max_total_wait_ms: mc.max_total_wait_ms.unwrap_or(self.max_total_wait_ms),
            connect_timeout_secs: mc.connect_timeout_secs.unwrap_or(self.connect_timeout_secs),
            retry_status_codes: match &mc.retry_status_codes {
                Some(codes) => copy_codes(codes),
                None => copy_codes(&self.retry_status_codes),
            },
        }
    }

    /// The names of the models that the route has entries for, in the order of the entries.
    pub fn model_names(&self) -> (r: Vec<&str>)
        ensures
            strs(r@) == names_of(self@.models),
    {
        let mut names: Vec<&str> = Vec::new();
        let mut i: usize = 0;
        while i < self.models.len()
            invariant
                i <= self.models@.len(),
                names@.len() == i,
                forall|j: int| 0 <= j < i ==> (#[trigger] names@[j])@ == self.models@[j].0@,
            decreases self.models@.len() - i,
        {
            names.push(self.models[i].0.as_str());
            i += 1;
        }
        assert(strs(names@) =~= names_of(self@.models));
        names
    }
}

// ── Validation ─────────────────────────────────────────────────────────────

/// What `http` finds wrong with a text that should be a URI.
pub uninterp spec fn uri_error(text: Seq<char>) -> Option<Seq<char>>;

/// `str::parse` into an `http::Uri`: the text of the error, if the text is not a URI.
#[verifier::external_body]
fn uri_problem(text: &str) -> (r: Option<String>)
    ensures
        opt_text(r) == uri_error(text@),
{
    match text.parse::<http::Uri>() {
        Ok(_) => None,
        Err(e) => Some(e.to_string()),
    }
}

/// What is wrong with a route's name and target, given what is wrong with the target as a URI.
pub open spec fn route_problem(
    name: Seq<char>,
    target: Seq<char>,
    uri_error: Option<Seq<char>>,
) -> Option<Seq<char>> {
    if name.contains('/') {
        Some("route name '"@ + name + "' must not contain '/'"@)
    } else if target.len() == 0 {
        Some("route '"@ + name + "' has empty target"@)
    } else {
        match uri_error {
            Some(e) => Some(
                "route '"@ + name + "' target '"@ + target + "' is not a valid URL: "@ + e,
            ),
            None => None,
        }
    }
}

/// What is wrong with a model's entry, given what is wrong with its target as a URI.
pub open spec fn model_problem(
    route: Seq<char>,
    name: Seq<char>,
    target: Option<Seq<char>>,
    uri_error: Option<Seq<char>>,
) -> Option<Seq<char>> {
    if name.len() == 0 {
        Some("route '"@ + route + "' has a model entry with empty name"@)
    } else {
        match (target, uri_error) {
            (Some(t), _) if t.len() == 0 => Some(
                "route '"@ + route + "' model '"@ + name + "' has empty target"@,
            ),
            (Some(t), Some(e)) => Some(
                "route '"@ + route + "' model '"@ + name + "' target '"@ + t
                    + "' is not a valid URL: "@ + e,
            ),
            _ => None,
        }
    }
}

/// What is wrong with the first model's entry with which something is wrong.
pub open spec fn models_problem(
    route: Seq<char>,
    models: Seq<(Seq<char>, ModelView)>,
) -> Option<Seq<char>>
    decreases models.len(),
{
    if models.len() == 0 {
        None
    } else {
        let (name, m) = models[0];
        let error = match m.target {
            Some(t) => uri_error(t),
            None => None,
        };
        match model_problem(route, name, m.target, error) {
            Some(p) => Some(p),
            None => models_problem(route, models.skip(1)),
        }
    }
}

/// What is wrong with the first route with which something is wrong.
pub open spec fn routes_problem(routes: Seq<(Seq<char>, RouteView)>) -> Option<Seq<char>>
    decreases routes.len(),
{
    if routes.len() == 0 {
        None
    } else {
        let (name, route) = routes[0];
        match route_problem(name, route.target, uri_error(route.target)) {
            Some(p) => Some(p),
            None => match models_problem(name, route.models) {
                Some(p) => Some(p),
                None => routes_problem(routes.skip(1)),
            },
        }
    }
}

/// What is wrong with the defaults.
pub open spec fn defaults_problem(d: DefaultsView) -> Option<Seq<char>> {
    if d.max_retries == 0 {
        Some("defaults.max_retries must be > 0"@)
    } else if d.base_delay_ms == 0 {
        Some("defaults.base_delay_ms must be > 0"@)
    } else if d.max_delay_ms == 0 {
        Some("defaults.max_delay_ms must be > 0"@)
    } else {
        None
    }
}

/// What is wrong with a configuration: with its routes, in the order of their entries, or with
/// its defaults.
pub open spec fn config_problem(config: ConfigView) -> Option<Seq<char>> {
    if config.routes.len() == 0 {
        Some("no routes defined"@)
    } else {
        match routes_problem(config.routes) {
            Some(p) => Some(p),
            None => defaults_problem(config.defaults),
        }
    }
}

/// What is wrong with a route's name and target, given what is wrong with the target as a URI.
pub fn check_route(name: &str, target: &str, uri_error: Option<&str>) -> (r: Option<String>)
    ensures
        opt_text(r) == route_problem(name@, target@, opt_str(uri_error)),
{
    if has_char(name, '/') {
        let mut text = "route name '".to_owned();
        text.append(name);
        text.append("' must not contain '/'");
        return Some(text);
    }
    if target.is_empty() {
        let mut text = "route '".to_owned();
        text.append(name);
        text.append("' has empty target");
        return Some(text);
    }
    match uri_error {
        Some(e) => {
            let mut text = "route '".to_owned();
            text.append(name);
            text.append("' target '");
            text.append(target);
            text.append("' is not a valid URL: ");
            text.append(e);
            Some(text)
        },
        None => None,
    }
}

/// What is wrong with a model's entry, given what is wrong with its target as a URI.
pub fn check_model(
    route: &str,
    name: &str,
    target: Option<&str>,
    uri_error: Option<&str>,
) -> (r: Option<String>)
    ensures
        opt_text(r) == model_problem(route@, name@, opt_str(target), opt_str(uri_error)),
{
    if name.is_empty() {
        let mut text = "route '".to_owned();
        text.append(route);
        text.append("' has a model entry with empty name");
        return Some(text);
    }
    let t = match target {
        Some(t) => t,
        None => {
            return None;
        },
    };
    if t.is_empty() {
        let mut text = "route '".to_owned();
        text.append(route);
        text.append("' model '");
        text.append(name);
        text.append("' has empty target");
        return Some(text);
    }
    match uri_error {
        Some(e) => {
            let mut text = "route '".to_owned();
            text.append(route);
            text.append("' model '");
            text.append(name);
            text.append("' target '");
            text.append(t);
            text.append("' is not a valid URL: ");
            text.append(e);
            Some(text)
        },
        None => None,
    }
}

/// What is wrong with the defaults.
pub fn check_defaults(defaults: &Defaults) -> (r: Option<String>)
    ensures
        opt_text(r) == defaults_problem(defaults@),
{
    if defaults.max_retries == 0 {
        Some("defaults.max_retries must be > 0".to_owned())
    } else if defaults.base_delay_ms == 0 {
        Some("defaults.base_delay_ms must be > 0".to_owned())
    } else if defaults.max_delay_ms == 0 {
        Some("defaults.max_delay_ms must be > 0".to_owned())
    } else {
        None
    }
}

/// An optional string as a slice.
fn as_slice(s: &Option<String>) -> (r: Option<&str>)
    ensures
        opt_str(r) == opt_text(*s),
{
    match s {
        Some(text) => Some(text.as_str()),
        None => None,
    }
}

/// What is wrong with the models' entries of a route.
fn check_models(route: &str, models: &Vec<(String, ModelConfig)>) -> (r: Option<String>)
    ensures
        opt_text(r) == models_problem(route@, models_view(models@)),
{
    let ghost all = models_view(models@);
    let mut i: usize = 0;
    assert(all.skip(0) =~= all);
    while i < models.len()
        invariant
            all == models_view(models@),
            i <= models@.len(),
            models_problem(route@, all.skip(i as int)) == models_problem(route@, all),
        decreases models@.len() - i,
    {
        let ghost rest = all.skip(i as int);
        assert(rest[0] == all[i as int]);
        assert(rest.skip(1) =~= all.skip(i + 1));
        let target = as_slice(&models[i].1.target);
        let error: Option<String> = match target {
            Some(t) => uri_problem(t),
            None => None,
        };
        let problem = check_model(route, models[i].0.as_str(), target, as_slice(&error));
        if problem.is_some() {
            return problem;
        }
        i += 1;
    }
    None
}

impl Config {
    /// Checks the configuration. What is wrong is told of the first entry with which
    /// something is wrong.
    pub fn validate(&self) -> (r: Result<(), ConfigError>)
        ensures
            match r {
                Ok(()) => config_problem(self@) is None,
                Err(e) => config_problem(self@) == Some(e.0@),
            },
            r is Ok <==> good_config(self@),
    {
        proof {
            law_checked_config(self@);
        }
        if self.routes.len() == 0 {
            return Err(ConfigError("no routes defined".to_owned()));
        }
        let ghost all = self@.routes;
        let mut i: usize = 0;
        assert(all.skip(0) =~= all);
        while i < self.routes.len()
            invariant
                config_problem(self@) is None <==> good_config(self@),
                all == self@.routes,
                all.len() == self.routes@.len() > 0,
                i <= all.len(),
                routes_problem(all.skip(i as int)) == routes_problem(all),
            decreases all.len() - i,
        {
            let ghost rest = all.skip(i as int);
            assert(rest[0] == all[i as int]);
            assert(rest.skip(1) =~= all.skip(i + 1));
            let name = self.routes[i].0.as_str();
            let target = self.routes[i].1.target.as_str();
            let error = uri_problem(target);
            if let Some(p) = check_route(name, target, as_slice(&error)) {
                return Err(ConfigError(p));
            }
            if let Some(p) = check_models(name, &self.routes[i].1.models) {
                return Err(ConfigError(p));
            }
            i += 1;
        }
        match check_defaults(&self.defaults) {
            Some(p) => Err(ConfigError(p)),
            None => Ok(()),
        }
    }

    /// The configuration, if nothing is wrong with it.
    pub fn checked(self) -> (r: Result<Config, ConfigError>)
        ensures
            match r {
                Ok(config) => config == self && config_problem(self@) is None,
                Err(e) => config_problem(self@) == Some(e.0@),
            },
            r is Ok <==> good_config(self@),
    {
        match self.validate() {
            Ok(()) => Ok(self),
            Err(e) => Err(e),
        }
    }

    /// Takes a configuration that was read anew. If there is none, or something is wrong with
    /// it, the configuration stays as it is, and what is wrong comes back.
    pub fn reload(&mut self, loaded: Result<Config, ConfigError>) -> (r: Option<ConfigError>)
        ensures
            match (loaded, r) {
                (Ok(config), None) => config_problem(config@) is None && *final(self) == config,
                (Ok(config), Some(e)) => config_problem(config@) == Some(e.0@) && *final(self)
                    == *old(self),
                (Err(e), problem) => problem == Some(e) && *final(self) == *old(self),
            },
            good_config(old(self)@) ==> good_config(final(self)@),
            r is Some ==> *final(self) == *old(self),
            r is None <==> (loaded matches Ok(config) && good_config(config@)),
    {
        match loaded {
            Ok(config) => match config.checked() {
                Ok(config) => {
                    *self = config;
                    None
                },
                Err(e) => Some(e),
            },
            Err(e) => Some(e),
        }
    }
}

// ── Changes of the file ────────────────────────────────────────────────────

/// What happened to the configuration file.
#[derive(Debug, Clone, Copy, PartialEq, Eq, Structural)]
pub enum FileChange {
    Created,
    Modified,
    Removed,
    /// It was read, or something that leaves it as it is.
    Other,
}

/// Whether the configuration is read anew after something happened to its file.
pub fn leads_to_reload(change: FileChange) -> (r: bool)
    ensures
        r == (change is Created || change is Modified || change is Removed),
        !r <==> change is Other,
{
    match change {
        FileChange::Created | FileChange::Modified | FileChange::Removed => true,
        FileChange::Other => false,
    }
}

// ── What holds of every configuration ──────────────────────────────────────

/// A setting of a model counts before that of its route, and that of a route before the
/// default.
pub proof fn law_precedence(config: ConfigView, name: Seq<char>, model: Seq<char>)
    requires
        entries_map(config.routes).contains_key(name),
        entries_map(entries_map(config.routes)[name].models).contains_key(model),
    ensures
        ({
            let d = config.defaults;
            let route = entries_map(config.routes)[name];
            let m = entries_map(route.models)[model];
            let s = resolved_model(resolved_route(config, name)->0, model);
            &&& s.target == or(m.target, route.target)
            &&& s.transform == match m.transform {
                Some(t) => asked_transform(Some(t)),
                None => asked_transform(route.transform),
            }
            &&& s.upstream_model == if m.upstream_model is Some {
                m.upstream_model
            } else {
                route.upstream_model
            }
            &&& s.max_retries == or(m.max_retries, or(route.max_retries, d.max_retries))
            &&& s.base_delay_ms == or(m.base_delay_ms, or(route.base_delay_ms, d.base_delay_ms))
            &&& s.max_delay_ms == or(m.max_delay_ms, or(route.max_delay_ms, d.max_delay_ms))
            &&& s.max_total_wait_ms == or(
                m.max_total_wait_ms,
                or(route.max_total_wait_ms, d.max_total_wait_ms),
            )
            &&& s.connect_timeout_secs == or(
                m.connect_timeout_secs,
                or(route.connect_timeout_secs, d.connect_timeout_secs),
            )
            &&& s.retry_status_codes == or(
                m.retry_status_codes,
                or(route.retry_status_codes, d.retry_status_codes),
            )
            &&& s.rewrite_response_model == or(
                m.rewrite_response_model,
                or(route.rewrite_response_model, false),
            )
        }),
{
}

/// A model that the route has no entry for has the settings of the route.
pub proof fn law_unknown_model(s: SettingsView, model: Seq<char>)
    requires
        !entries_map(s.models).contains_key(model),
    ensures
        resolved_model(s, model) == s,
{
}

/// A route without entries for models treats all models alike.
pub proof fn law_no_models(s: SettingsView, model: Seq<char>)
    requires
        s.models.len() == 0,
    ensures
        resolved_model(s, model) == s,
{
}

/// An entry that names nothing changes nothing.
pub proof fn law_empty_entry(s: SettingsView)
    ensures
        model_settings(
            s,
            (ModelView {
                target: None,
                transform: None,
                upstream_model: None,
                rewrite_response_model: None,
                max_retries: None,
                base_delay_ms: None,
                max_delay_ms: None,
                max_total_wait_ms: None,
                connect_timeout_secs: None,
                retry_status_codes: None,
            }),
        ) == s,
{
}

/// `none` turns the transform off, for a route and for a model of a route that has one.
pub proof fn law_none_turns_transform_off(
    route: RouteView,
    d: DefaultsView,
    s: SettingsView,
    m: ModelView,
)
    ensures
        route.transform == Some("none"@) ==> route_settings(route, d).transform is None,
        m.transform == Some("none"@) ==> model_settings(s, m).transform is None,
{
}

/// A model's entry with which nothing is wrong.
pub open spec fn good_model(name: Seq<char>, m: ModelView) -> bool {
    &&& name.len() > 0
    &&& m.target matches Some(t) ==> t.len() > 0 && uri_error(t) is None
}

/// A route with which nothing is wrong: its name can stand in a path, and its targets are URIs.
pub open spec fn good_route(name: Seq<char>, route: RouteView) -> bool {
    &&& !name.contains('/')
    &&& route.target.len() > 0
    &&& uri_error(route.target) is None
    &&& forall|j: int|
        0 <= j < route.models.len() ==> good_model(
            (#[trigger] route.models[j]).0,
            route.models[j].1,
        )
}

/// A configuration with which nothing is wrong.
pub open spec fn good_config(config: ConfigView) -> bool {
    &&& config.routes.len() > 0
    &&& forall|i: int|
        0 <= i < config.routes.len() ==> good_route(
            (#[trigger] config.routes[i]).0,
            config.routes[i].1,
        )
    &&& config.defaults.max_retries > 0
    &&& config.defaults.base_delay_ms > 0
    &&& config.defaults.max_delay_ms > 0
}

/// A configuration is accepted if, and only if, it has a route, all its routes and models are
/// good, and no limit among its defaults is zero.
pub proof fn law_checked_config(config: ConfigView)
    ensures
        config_problem(config) is None <==> good_config(config),
{
    lemma_routes_problem(config.routes);
}

/// Something is wrong with routes if, and only if, something is wrong with one of them.
proof fn lemma_routes_problem(routes: Seq<(Seq<char>, RouteView)>)
    ensures
        routes_problem(routes) is None <==> forall|i: int|
            0 <= i < routes.len() ==> good_route((#[trigger] routes[i]).0, routes[i].1),
    decreases routes.len(),
{
    if routes.len() > 0 {
        let rest = routes.skip(1);
        lemma_routes_problem(rest);
        lemma_models_problem(routes[0].0, routes[0].1.models);
        assert forall|i: int| 0 < i < routes.len() implies #[trigger] routes[i] == rest[i - 1] by {}
        assert forall|i: int| 0 <= i < rest.len() implies #[trigger] rest[i] == routes[i + 1] by {}
    }
}

/// Something is wrong with models' entries if, and only if, something is wrong with one of
/// them.
proof fn lemma_models_problem(route: Seq<char>, models: Seq<(Seq<char>, ModelView)>)
    ensures
        models_problem(route, models) is None <==> forall|j: int|
            0 <= j < models.len() ==> good_model((#[trigger] models[j]).0, models[j].1),
    decreases models.len(),
{
    if models.len() > 0 {
        let rest = models.skip(1);
        lemma_models_problem(route, rest);
        assert forall|j: int| 0 < j < models.len() implies #[trigger] models[j] == rest[j - 1] by {}
        assert forall|j: int| 0 <= j < rest.len() implies #[trigger] rest[j] == models[j + 1] by {}
    }
}

/// The last entry with a name.
pub open spec fn last_entry<T>(entries: Seq<(Seq<char>, T)>, name: Seq<char>) -> Option<T>
    decreases entries.len(),
{
    if entries.len() == 0 {
        None
    } else if entries.last().0 == name {
        Some(entries.last().1)
    } else {
        last_entry(entries.drop_last(), name)
    }
}

/// Under each name an entry is found, the last one with that name.
pub proof fn law_last_entry_counts<T>(entries: Seq<(Seq<char>, T)>, name: Seq<char>)
    ensures
        match last_entry(entries, name) {
            Some(value) => entries_map(entries).contains_key(name) && entries_map(entries)[name]
                == value,
            None => !entries_map(entries).contains_key(name),
        },
    decreases entries.len(),
{
    if entries.len() > 0 {
        law_last_entry_counts(entries.drop_last(), name);
    }
}

/// What the entry of a model names counts, setting by setting; what it does not name is that of
/// the route. A model without an entry has the settings of the route.
pub proof fn law_model_entry(s: SettingsView, model: Seq<char>)
    ensures
        ({
            let r = resolved_model(s, model);
            match last_entry(s.models, model) {
                None => r == s,
                Some(m) => {
                    &&& m.target matches Some(v) ==> r.target == v
                    &&& m.target is None ==> r.target == s.target
                    &&& m.transform matches Some(v) ==> if v == "none"@ {
                        r.transform is None
                    } else {
                        r.transform == Some(v)
                    }
                    &&& m.transform is None ==> r.transform == s.transform
                    &&& m.upstream_model matches Some(v) ==> r.upstream_model == Some(v)
                    &&& m.upstream_model is None ==> r.upstream_model == s.upstream_model
                    &&& m.rewrite_response_model matches Some(v) ==> r.rewrite_response_model == v
                    &&& m.rewrite_response_model is None ==> r.rewrite_response_model
                        == s.rewrite_response_model
                    &&& m.max_retries matches Some(v) ==> r.max_retries == v
                    &&& m.max_retries is None ==> r.max_retries == s.max_retries
                    &&& m.base_delay_ms matches Some(v) ==> r.base_delay_ms == v
                    &&& m.base_delay_ms is None ==> r.base_delay_ms == s.base_delay_ms
                    &&& m.max_delay_ms matches Some(v) ==> r.max_delay_ms == v
                    &&& m.max_delay_ms is None ==> r.max_delay_ms == s.max_delay_ms
                    &&& m.max_total_wait_ms matches Some(v) ==> r.max_total_wait_ms == v
                    &&& m.max_total_wait_ms is None ==> r.max_total_wait_ms == s.max_total_wait_ms
                    &&& m.connect_timeout_secs matches Some(v) ==> r.connect_timeout_secs == v
                    &&& m.connect_timeout_secs is None ==> r.connect_timeout_secs
                        == s.connect_timeout_secs
                    &&& m.retry_status_codes matches Some(v) ==> r.retry_status_codes == v
                    &&& m.retry_status_codes is None ==> r.retry_status_codes
                        == s.retry_status_codes
                    &&& r.models == s.models
                },
            }
        }),
{
    law_last_entry_counts(s.models, model);
}

/// What a route names counts, setting by setting; what it does not name is the default, which for
/// the transform and the name at the upstream is none, and for rewriting responses is not to. There
/// is no route under a name that no entry has.
pub proof fn law_route_entry(config: ConfigView, name: Seq<char>)
    ensures
        match last_entry(config.routes, name) {
            None => resolved_route(config, name) is None,
            Some(route) => {
                let d = config.defaults;
                &&& resolved_route(config, name) is Some
                &&& {
                    let r = resolved_route(config, name)->0;
                    &&& r.target == route.target
                    &&& r.models == route.models
                    &&& r.upstream_model == route.upstream_model
                    &&& r.transform == if route.transform == Some("none"@) {
                        None
                    } else {
                        route.transform
                    }
                    &&& r.rewrite_response_model == (route.rewrite_response_model == Some(true))
                    &&& route.max_retries matches Some(v) ==> r.max_retries == v
                    &&& route.max_retries is None ==> r.max_retries == d.max_retries
                    &&& route.base_delay_ms matches Some(v) ==> r.base_delay_ms == v
                    &&& route.base_delay_ms is None ==> r.base_delay_ms == d.base_delay_ms
                    &&& route.max_delay_ms matches Some(v) ==> r.max_delay_ms == v
                    &&& route.max_delay_ms is None ==> r.max_delay_ms == d.max_delay_ms
                    &&& route.max_total_wait_ms matches Some(v) ==> r.max_total_wait_ms == v
                    &&& route.max_total_wait_ms is None ==> r.max_total_wait_ms
                        == d.max_total_wait_ms
                    &&& route.connect_timeout_secs matches Some(v) ==> r.connect_timeout_secs == v
                    &&& route.connect_timeout_secs is None ==> r.connect_timeout_secs
                        == d.connect_timeout_secs
                    &&& route.retry_status_codes matches Some(v) ==> r.retry_status_codes == v
                    &&& route.retry_status_codes is None ==> r.retry_status_codes
                        == d.retry_status_codes
                }
            },
        },
{
    law_last_entry_counts(config.routes, name);
}

/// What is told of a configuration is what is wrong with the first entry with which something is
/// wrong: first its name, then its target, then, one after the other, the entries of its models;
/// and with the defaults only if all routes are good.
pub proof fn law_first_problem_is_told(config: ConfigView, i: int)
    requires
        0 <= i < config.routes.len(),
        forall|j: int|
            0 <= j < i ==> good_route((#[trigger] config.routes[j]).0, config.routes[j].1),
    ensures
        ({
            let (name, route) = config.routes[i];
            let told = config_problem(config);
            if name.contains('/') {
                told == Some("route name '"@ + name + "' must not contain '/'"@)
            } else if route.target.len() == 0 {
                told == Some("route '"@ + name + "' has empty target"@)
            } else {
                match uri_error(route.target) {
                    Some(e) => told == Some(
                        "route '"@ + name + "' target '"@ + route.target
                            + "' is not a valid URL: "@ + e,
                    ),
                    None => models_problem(name, route.models) is Some ==> told == models_problem(
                        name,
                        route.models,
                    ),
                }
            }
        }),
{
    lemma_first_route(config.routes, i);
}

/// The problem of routes is that of the first one that has one.
proof fn lemma_first_route(routes: Seq<(Seq<char>, RouteView)>, i: int)
    requires
        0 <= i < routes.len(),
        forall|j: int| 0 <= j < i ==> good_route((#[trigger] routes[j]).0, routes[j].1),
    ensures
        routes_problem(routes) == routes_problem(routes.skip(i)),
    decreases i,
{
    if i == 0 {
        assert(routes.skip(0) =~= routes);
    } else {
        let rest = routes.skip(1);
        assert(good_route(routes[0].0, routes[0].1));
        lemma_models_problem(routes[0].0, routes[0].1.models);
        assert forall|j: int| 0 <= j < i - 1 implies good_route(
            (#[trigger] rest[j]).0,
            rest[j].1,
        ) by {
            assert(rest[j] == routes[j + 1]);
        }
        lemma_first_route(rest, i - 1);
        assert(rest.skip(i - 1) =~= routes.skip(i));
    }
}

/// What is told of the entries of the models of a route is what is wrong with the first one with
/// which something is wrong: that it has no name, or an empty target, or a target that is no URI.
pub proof fn law_first_model_problem_is_told(
    route: Seq<char>,
    models: Seq<(Seq<char>, ModelView)>,
    i: int,
)
    requires
        0 <= i < models.len(),
        forall|j: int| 0 <= j < i ==> good_model((#[trigger] models[j]).0, models[j].1),
        !good_model(models[i].0, models[i].1),
    ensures
        ({
            let (name, m) = models[i];
            let told = models_problem(route, models);
            if name.len() == 0 {
                told == Some("route '"@ + route + "' has a model entry with empty name"@)
            } else {
                match m.target {
                    Some(t) if t.len() == 0 => told == Some(
                        "route '"@ + route + "' model '"@ + name + "' has empty target"@,
                    ),
                    Some(t) => told == Some(
                        "route '"@ + route + "' model '"@ + name + "' target '"@ + t
                            + "' is not a valid URL: "@ + uri_error(t)->0,
                    ),
                    None => false,
                }
            }
        }),
    decreases i,
{
    if i > 0 {
        let rest = models.skip(1);
        assert(good_model(models[0].0, models[0].1));
        assert forall|j: int| 0 <= j < i - 1 implies good_model(
            (#[trigger] rest[j]).0,
            rest[j].1,
        ) by {
            assert(rest[j] == models[j + 1]);
        }
        assert(rest[i - 1] == models[i]);
        law_first_model_problem_is_told(route, rest, i - 1);
    }
}

/// What is told of the defaults, if all routes are good, is which limit is zero.
pub proof fn law_defaults_problem_is_told(config: ConfigView)
    requires
        config.routes.len() > 0,
        forall|j: int|
            0 <= j < config.routes.len() ==> good_route(
                (#[trigger] config.routes[j]).0,
                config.routes[j].1,
            ),
    ensures
        config_problem(config) == if config.defaults.max_retries == 0 {
            Some("defaults.max_retries must be > 0"@)
        } else if config.defaults.base_delay_ms == 0 {
            Some("defaults.base_delay_ms must be > 0"@)
        } else if config.defaults.max_delay_ms == 0 {
            Some("defaults.max_delay_ms must be > 0"@)
        } else {
            None
        },
{
    lemma_routes_problem(config.routes);
}

}
