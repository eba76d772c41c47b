//! What is counted and measured, by route and model.

use crate::proxy::attempts::{Action, ActionView};
use crate::text::{decimal, decimal_string, texts};
use vstd::prelude::*;

verus! {

broadcast use vstd::string::group_string_axioms;

/// What is counted or measured.
#[derive(Debug, Clone, Copy, PartialEq, Eq, Structural)]
pub enum Metric {
    /// The requests that came in.
    Requests,
    /// The attempts after the first one.
    Retries,
    /// The statuses of the upstream's answers.
    UpstreamStatus,
    /// How long it took until an answer was passed on.
    Duration,
}

/// One more for a metric, under these labels.
#[derive(Debug)]
pub struct Sample {
    pub metric: Metric,
    pub labels: Vec<String>,
}

/// One more for a metric, under these labels.
pub struct SampleView {
    pub metric: Metric,
    pub labels: Seq<Seq<char>>,
}

impl View for Sample {
    type V = SampleView;

    open spec fn view(&self) -> SampleView {
        SampleView { metric: self.metric, labels: texts(self.labels@) }
    }
}

impl Metric {
    /// The name of the metric.
    pub open spec fn named(self) -> Seq<char> {
        match self {
            Metric::Requests => "proxy_requests_total"@,
            Metric::Retries => "proxy_retries_total"@,
            Metric::UpstreamStatus => "proxy_upstream_status_total"@,
            Metric::Duration => "proxy_request_duration_seconds"@,
        }
    }

    /// The name of the metric.
    pub fn name(self) -> (r: &'static str)
        ensures
            r@ == self.named(),
    {
        match self {
            Metric::Requests => "proxy_requests_total",
            Metric::Retries => "proxy_retries_total",
            Metric::UpstreamStatus => "proxy_upstream_status_total",
            Metric::Duration => "proxy_request_duration_seconds",
        }
    }

    /// What the metric tells.
    pub open spec fn explained(self) -> Seq<char> {
        match self {
            Metric::Requests => "Total requests received"@,
            Metric::Retries => "Total retry attempts"@,
            Metric::UpstreamStatus => "Upstream status code distribution"@,
            Metric::Duration => "Request duration in seconds"@,
        }
    }

    /// What the metric tells.
    pub fn help(self) -> (r: &'static str)
        ensures
            r@ == self.explained(),
    {
        match self {
            Metric::Requests => "Total requests received",
            Metric::Retries => "Total retry attempts",
            Metric::UpstreamStatus => "Upstream status code distribution",
            Metric::Duration => "Request duration in seconds",
        }
    }

    /// The names of the labels of the metric.
    pub open spec fn labelled(self) -> Seq<Seq<char>> {
        match self {
            Metric::UpstreamStatus => seq!["route"@, "model"@, "status"@],
            _ => seq!["route"@, "model"@],
        }
    }

    /// The names of the labels of the metric.
    pub fn label_names(self) -> (r: Vec<String>)
        ensures
            texts(r@) == self.labelled(),
    {
        let mut names: Vec<String> = vec!["route".to_owned(), "model".to_owned()];
        if let Metric::UpstreamStatus = self {
            names.push("status".to_owned());
        }
        assert(texts(names@) =~= self.labelled());
        names
    }
}

// ── What is recorded ───────────────────────────────────────────────────────

/// One more for a metric of a route and a model.
pub open spec fn sample(metric: Metric, route: Seq<char>, model: Seq<char>) -> SampleView {
    SampleView { metric, labels: seq![route, model] }
}

/// One more answer with this status.
pub open spec fn status_sample(route: Seq<char>, model: Seq<char>, status: u16) -> SampleView {
    SampleView {
        metric: Metric::UpstreamStatus,
        labels: seq![route, model, decimal(status as nat)],
    }
}

/// One more for a metric of a route and a model.
fn record(metric: Metric, route: &str, model: &str) -> (r: Sample)
    ensures
        r@ == sample(metric, route@, model@),
{
    let labels: Vec<String> = vec![route.to_owned(), model.to_owned()];
    assert(texts(labels@) =~= seq![route@, model@]);
    Sample { metric, labels }
}

/// A request came in.
pub fn record_request(route: &str, model: &str) -> (r: Sample)
    ensures
        r@ == sample(Metric::Requests, route@, model@),
{
    record(Metric::Requests, route, model)
}

/// A request will be tried again.
pub fn record_retry(route: &str, model: &str) -> (r: Sample)
    ensures
        r@ == sample(Metric::Retries, route@, model@),
{
    record(Metric::Retries, route, model)
}

/// An answer of the upstream is passed on.
pub fn record_upstream_status(route: &str, model: &str, status: u16) -> (r: Sample)
    ensures
        r@ == status_sample(route@, model@, status),
{
    let labels: Vec<String> =
        vec![route.to_owned(), model.to_owned(), decimal_string(status as u64)];
    assert(texts(labels@) =~= seq![route@, model@, decimal(status as nat)]);
    Sample { metric: Metric::UpstreamStatus, labels }
}

/// It is known how long a request took.
pub fn record_duration(route: &str, model: &str) -> (r: Sample)
    ensures
        r@ == sample(Metric::Duration, route@, model@),
{
    record(Metric::Duration, route, model)
}

/// The samples of a list.
pub open spec fn samples_view(samples: Seq<Sample>) -> Seq<SampleView> {
    samples.map_values(|s: Sample| s@)
}

/// What is recorded when a decision has been made about a request: each wait is a further
/// attempt, and an answer of the upstream counts when it is passed on.
pub open spec fn recorded(
    action: ActionView,
    route: Seq<char>,
    model: Seq<char>,
) -> Seq<SampleView> {
    match action {
        ActionView::Wait(_) => seq![sample(Metric::Retries, route, model)],
        ActionView::Relay(status) => seq![
            status_sample(route, model, status),
            sample(Metric::Duration, route, model),
        ],
        _ => Seq::empty(),
    }
}

/// What is recorded when a decision has been made about a request.
pub fn record_action(action: &Action, route: &str, model: &str) -> (r: Vec<Sample>)
    ensures
        samples_view(r@) == recorded(action@, route@, model@),
{
    let mut samples: Vec<Sample> = Vec::new();
    match action {
        Action::Wait(_) => {
            samples.push(record_retry(route, model));
        },
        Action::Relay(status) => {
            samples.push(record_upstream_status(route, model, *status));
            samples.push(record_duration(route, model));
        },
        _ => {},
    }
    assert(samples_view(samples@) =~= recorded(action@, route@, model@));
    samples
}

/// A wait counts as one retry of the route and the model, and as nothing else. An answer that is
/// passed on counts once, under its status, and is measured once. Nothing else that is done about a
/// request counts.
pub proof fn law_what_counts(action: ActionView, route: Seq<char>, model: Seq<char>)
    ensures
        match action {
            ActionView::Wait(_) => {
                let r = recorded(action, route, model);
                &&& r.len() == 1
                &&& r[0].metric is Retries
                &&& r[0].labels == seq![route, model]
            },
            ActionView::Relay(status) => {
                let r = recorded(action, route, model);
                &&& r.len() == 2
                &&& r[0].metric is UpstreamStatus
                &&& r[0].labels == seq![route, model, decimal(status as nat)]
                &&& r[1].metric is Duration
                &&& r[1].labels == seq![route, model]
            },
            _ => recorded(action, route, model).len() == 0,
        },
        forall|metric: Metric| (#[trigger] sample(metric, route, model)).metric == metric,
        forall|metric: Metric|
            (#[trigger] sample(metric, route, model)).labels == seq![route, model],
{
}

/// There is a value for each label of a metric.
pub proof fn law_labels_fit(action: ActionView, route: Seq<char>, model: Seq<char>, i: int)
    requires
        0 <= i < recorded(action, route, model).len(),
    ensures
        ({
            let one = recorded(action, route, model)[i];
            &&& one.labels.len() == one.metric.labelled().len()
            &&& one.metric.labelled()[0] == "route"@
            &&& one.metric.labelled()[1] == "model"@
            &&& one.metric is UpstreamStatus ==> one.metric.labelled()[2] == "status"@
        }),
{
}

}
