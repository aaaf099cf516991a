//! What is counted and measured, for whoever records it.

use vstd::prelude::*;

verus! {

/// A label: its name and its value.
pub type Label = (&'static str, String);

/// Something to record.
#[derive(Debug)]
pub enum Sample {
    /// A counter goes up by `value`.
    Counter { name: &'static str, labels: Vec<Label>, value: u64 },
    /// A gauge stands at `level`.
    Gauge { name: &'static str, level: usize },
}

/// Labels as mathematical values.
pub open spec fn labels_view(labels: Seq<Label>) -> Seq<(Seq<char>, Seq<char>)> {
    Seq::new(labels.len(), |i: int| (labels[i].0@, labels[i].1@))
}

/// Whether a sample counts one more under `name` with these labels.
pub open spec fn counts_one(
    sample: Sample,
    name: Seq<char>,
    labels: Seq<(Seq<char>, Seq<char>)>,
) -> bool {
    sample matches Sample::Counter { name: n, labels: l, value } && n@ == name && labels_view(l@)
        == labels && value == 1
}

/// How many labels a recorder keeps of a sample.
pub const MAX_LABELS: usize = 2;

/// How many of these labels a recorder keeps: the first two, or all when there
/// are fewer.
pub fn kept_labels(labels: &Vec<Label>) -> (n: usize)
    ensures
        n == (if labels@.len() < MAX_LABELS {
            labels@.len()
        } else {
            MAX_LABELS as nat
        }),
{
    if labels.len() < MAX_LABELS {
        labels.len()
    } else {
        MAX_LABELS
    }
}

/// Says what to record when something happens to an instance.
#[derive(Debug)]
pub struct MetricsService {}

fn one_more(name: &'static str, instance: &str) -> (s: Sample)
    ensures
        counts_one(s, name@, seq![("instance"@, instance@)]),
{
    let mut labels: Vec<Label> = Vec::new();
    labels.push(("instance", instance.to_owned()));
    assert(labels_view(labels@) =~= seq![("instance"@, instance@)]);
    Sample::Counter { name, labels, value: 1 }
}

impl MetricsService {
    pub fn new() -> (s: Self)
        ensures
            s == (MetricsService {}),
    {
        MetricsService {}
    }

    /// An instance was created.
    pub fn record_instance_created(&self, name: &str, model_id: &str) -> (s: Sample)
        ensures
            counts_one(
                s,
                "tei_manager_instances_created_total"@,
                seq![("instance"@, name@), ("model"@, model_id@)],
            ),
    {
        let mut labels: Vec<Label> = Vec::new();
        labels.push(("instance", name.to_owned()));
        labels.push(("model", model_id.to_owned()));
        assert(labels_view(labels@) =~= seq![("instance"@, name@), ("model"@, model_id@)]);
        Sample::Counter { name: "tei_manager_instances_created_total", labels, value: 1 }
    }

    /// An instance was deleted.
    pub fn record_instance_deleted(&self, name: &str) -> (s: Sample)
        ensures
            counts_one(s, "tei_manager_instances_deleted_total"@, seq![("instance"@, name@)]),
    {
        one_more("tei_manager_instances_deleted_total", name)
    }

    /// An instance failed a health check.
    pub fn record_health_check_failure(&self, name: &str) -> (s: Sample)
        ensures
            counts_one(s, "tei_manager_health_check_failures_total"@, seq![("instance"@, name@)]),
    {
        one_more("tei_manager_health_check_failures_total", name)
    }

    /// An instance was restarted.
    pub fn record_instance_restart(&self, name: &str) -> (s: Sample)
        ensures
            counts_one(s, "tei_manager_instance_restarts_total"@, seq![("instance"@, name@)]),
    {
        one_more("tei_manager_instance_restarts_total", name)
    }

    /// There are so many instances now.
    pub fn update_instance_count(&self, count: usize) -> (s: Sample)
        ensures
            s matches Sample::Gauge { name, level } && name@ == "tei_manager_instances_count"@
                && level == count,
    {
        Sample::Gauge { name: "tei_manager_instances_count", level: count }
    }
}

/// An instance was created; nothing is recorded until a service is set up.
pub fn record_instance_created(service: Option<&MetricsService>, name: &str, model_id: &str) -> (s:
    Option<Sample>)
    ensures
        s is Some == service is Some,
        s matches Some(x) ==> counts_one(
            x,
            "tei_manager_instances_created_total"@,
            seq![("instance"@, name@), ("model"@, model_id@)],
        ),
{
    match service {
        Some(service) => Some(service.record_instance_created(name, model_id)),
        None => None,
    }
}

/// An instance was deleted; nothing is recorded until a service is set up.
pub fn record_instance_deleted(service: Option<&MetricsService>, name: &str) -> (s: Option<Sample>)
    ensures
        s is Some == service is Some,
        s matches Some(x) ==> counts_one(
            x,
            "tei_manager_instances_deleted_total"@,
            seq![("instance"@, name@)],
        ),
{
    match service {
        Some(service) => Some(service.record_instance_deleted(name)),
        None => None,
    }
}

/// An instance failed a health check; nothing is recorded until a service is set
/// up.
pub fn record_health_check_failure(service: Option<&MetricsService>, name: &str) -> (s: Option<
    Sample,
>)
    ensures
        s is Some == service is Some,
        s matches Some(x) ==> counts_one(
            x,
            "tei_manager_health_check_failures_total"@,
            seq![("instance"@, name@)],
        ),
{
    match service {
        Some(service) => Some(service.record_health_check_failure(name)),
        None => None,
    }
}

/// An instance was restarted; nothing is recorded until a service is set up.
pub fn record_instance_restart(service: Option<&MetricsService>, name: &str) -> (s: Option<Sample>)
    ensures
        s is Some == service is Some,
        s matches Some(x) ==> counts_one(
            x,
            "tei_manager_instance_restarts_total"@,
            seq![("instance"@, name@)],
        ),
{
    match service {
        Some(service) => Some(service.record_instance_restart(name)),
        None => None,
    }
}

/// There are so many instances now; nothing is recorded until a service is set
/// up.
pub fn update_instance_count(service: Option<&MetricsService>, count: usize) -> (s: Option<Sample>)
    ensures
        s is Some == service is Some,
        s matches Some(x) ==> (x matches Sample::Gauge { name, level } && name@
            == "tei_manager_instances_count"@ && level == count),
{
    match service {
        Some(service) => Some(service.update_instance_count(count)),
        None => None,
    }
}

/// What counts one more is a counter that goes up by one, under that name and with
/// those labels.
pub proof fn law_counters_go_up_by_one(
    sample: Sample,
    name: Seq<char>,
    labels: Seq<(Seq<char>, Seq<char>)>,
)
    ensures
        counts_one(sample, name, labels) <==> (sample matches Sample::Counter {
            name: n,
            labels: l,
            value,
        } && value == 1 && n@ == name && l@.len() == labels.len() && forall|i: int|
            0 <= i < labels.len() ==> (#[trigger] l@[i]).0@ == labels[i].0 && l@[i].1@
                == labels[i].1),
{
    if let Sample::Counter { name: n, labels: l, value } = sample {
        if labels_view(l@) == labels {
            assert(labels_view(l@).len() == l@.len());
            assert forall|i: int| 0 <= i < labels.len() implies (#[trigger] l@[i]).0@ == labels[i].0
                && l@[i].1@ == labels[i].1 by {
                assert(labels_view(l@)[i] == labels[i]);
            }
        }
        if l@.len() == labels.len() && forall|i: int|
            0 <= i < labels.len() ==> (#[trigger] l@[i]).0@ == labels[i].0 && l@[i].1@
                == labels[i].1 {
            assert(labels_view(l@) =~= labels);
        }
    }
}

} // verus!
