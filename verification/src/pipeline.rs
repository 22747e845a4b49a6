//! The per-record routing pipeline: parse the envelope, count the event,
//! drop deletes, resolve a destination, and record the outcome of the
//! publish that a caller performs for each routed record.

use vstd::prelude::*;

use crate::envelope::{decoded_envelope, op_of, parse_debezium, Op};
use crate::metrics::{bump, event_key, transform_key, EventKey, Metrics, TransformKey};
use crate::transform::{resolve_spec, FlinkKafkaTransform};

verus! {

/// What the pipeline decided for one consumed record.
#[derive(Debug, PartialEq, Eq)]
pub enum RecordOutcome {
    /// The payload is not a well-formed envelope; it was counted as a
    /// parse error and skipped.
    Malformed,
    /// A delete event: observed, never forwarded.
    DeleteDiscarded,
    /// No rule applies; observed and dropped, which is not an error.
    NotRouted,
    /// A rule applies: the caller should publish the record's original
    /// key and value bytes to `destination` and report how that went.
    Routed { destination: String, op: String },
}

/// How a dispatched publish ended.
#[derive(Clone, Copy, Debug, PartialEq, Eq, Structural)]
pub enum PublishOutcome {
    /// The broker acknowledged the record.
    Delivered,
    /// The broker rejected the record or was unreachable.
    BrokerError,
    /// The publish did not finish within its configured bound.
    TimedOut,
}

/// The routing pipeline: the immutable routing table and the counters it
/// updates at every decision point.
pub struct Pipeline {
    transform: FlinkKafkaTransform,
    metrics: Metrics,
}

impl Pipeline {
    pub closed spec fn spec_transform(&self) -> FlinkKafkaTransform {
        self.transform
    }

    pub closed spec fn spec_metrics(&self) -> Metrics {
        self.metrics
    }

    pub open spec fn wf(&self) -> bool {
        self.spec_metrics().wf()
    }

    /// A pipeline over a loaded routing table, with fresh counters.
    pub fn new(transform: FlinkKafkaTransform) -> (r: Pipeline)
        ensures
            r.wf(),
            r.spec_transform() == transform,
            forall|k: EventKey| r.spec_metrics().cdc_event_count(k) == 0,
            forall|k: TransformKey| r.spec_metrics().transform_count(k) == 0,
            r.spec_metrics().parse_error_count() == 0,
            r.spec_metrics().publish_error_count() == 0,
    {
        Pipeline { transform, metrics: Metrics::default() }
    }

    /// The counters, read-only, for exposition.
    pub fn metrics(&self) -> (r: &Metrics)
        ensures
            *r == self.spec_metrics(),
    {
        &self.metrics
    }

    /// The routing table the pipeline was loaded with.
    pub fn transform(&self) -> (r: &FlinkKafkaTransform)
        ensures
            *r == self.spec_transform(),
    {
        &self.transform
    }

    /// Decides one consumed record: a malformed payload is counted and
    /// skipped without stopping anything; a well-formed one is counted
    /// under its label set, a delete is discarded, and any other
    /// operation is resolved against the routing table. Forwarded-event
    /// counters move only when a publish is later reported delivered.
    pub fn on_record(&mut self, source_topic: &str, payload: &[u8]) -> (r: RecordOutcome)
        requires
            old(self).wf(),
        ensures
            final(self).wf(),
            final(self).spec_transform() == old(self).spec_transform(),
            forall|k: TransformKey|
                final(self).spec_metrics().transform_count(k) == old(self).spec_metrics().transform_count(k),
            final(self).spec_metrics().publish_error_count() == old(self).spec_metrics().publish_error_count(),
            decoded_envelope(payload@) is None ==> {
                &&& r == RecordOutcome::Malformed
                &&& final(self).spec_metrics().parse_error_count() == bump(
                    old(self).spec_metrics().parse_error_count(),
                )
                &&& forall|k: EventKey|
                    final(self).spec_metrics().cdc_event_count(k) == old(self).spec_metrics().cdc_event_count(k)
            },
            decoded_envelope(payload@) matches Some(f) ==> {
                &&& final(self).spec_metrics().parse_error_count() == old(self).spec_metrics().parse_error_count()
                &&& final(self).spec_metrics().cdc_event_count(
                    event_key(source_topic@, f.1, f.2, f.0),
                ) == bump(
                    old(self).spec_metrics().cdc_event_count(
                        event_key(source_topic@, f.1, f.2, f.0),
                    ),
                )
                &&& forall|k: EventKey|
                    k != event_key(source_topic@, f.1, f.2, f.0) ==> final(self).spec_metrics().cdc_event_count(k) == old(self).spec_metrics().cdc_event_count(k)
                &&& (op_of(f.0) == Op::Delete ==> r == RecordOutcome::DeleteDiscarded)
                &&& (op_of(f.0) != Op::Delete ==> match resolve_spec(
                    old(self).spec_transform().rules(),
                    source_topic@,
                    f.1,
                    f.2,
                ) {
                    None => r == RecordOutcome::NotRouted,
                    Some(dest) => r matches RecordOutcome::Routed { destination, op }
                        && destination@ == dest && op@ == f.0,
                })
            },
            r is Routed ==> (decoded_envelope(payload@) matches Some(f) && op_of(f.0)
                != Op::Delete),
    {
        match parse_debezium(payload) {
            Err(_) => {
                self.metrics.inc_parse_error();
                RecordOutcome::Malformed
            },
            Ok(ev) => {
                self.metrics.inc_flink_cdc_event(
                    source_topic.to_owned(),
                    ev.db().to_owned(),
                    ev.table().to_owned(),
                    ev.op().to_owned(),
                );
                if ev.op_kind() == Op::Delete {
                    RecordOutcome::DeleteDiscarded
                } else {
                    match self.transform.search_topic(source_topic, ev.db(), ev.table()) {
                        Some(destination) => RecordOutcome::Routed {
                            destination: destination.to_owned(),
                            op: ev.op().to_owned(),
                        },
                        None => RecordOutcome::NotRouted,
                    }
                }
            },
        }
    }

    /// Records how a dispatched publish ended: a delivery moves the
    /// forwarded-event counter for its label set; a broker error — and
    /// equally a publish that exceeded its configured bound — moves the
    /// publish-error counter instead, so no outcome is left unaccounted.
    pub fn on_publish_outcome(&mut self, destination: &str, op: &str, outcome: PublishOutcome)
        requires
            old(self).wf(),
        ensures
            final(self).wf(),
            final(self).spec_transform() == old(self).spec_transform(),
            forall|k: EventKey|
                final(self).spec_metrics().cdc_event_count(k) == old(self).spec_metrics().cdc_event_count(k),
            final(self).spec_metrics().parse_error_count() == old(self).spec_metrics().parse_error_count(),
            outcome == PublishOutcome::Delivered ==> {
                &&& final(self).spec_metrics().transform_count(transform_key(destination@, op@))
                    == bump(
                    old(self).spec_metrics().transform_count(transform_key(destination@, op@)),
                )
                &&& forall|k: TransformKey|
                    k != transform_key(destination@, op@) ==> final(self).spec_metrics().transform_count(k) == old(self).spec_metrics().transform_count(k)
                &&& final(self).spec_metrics().publish_error_count() == old(self).spec_metrics().publish_error_count()
            },
            outcome != PublishOutcome::Delivered ==> {
                &&& final(self).spec_metrics().publish_error_count() == bump(
                    old(self).spec_metrics().publish_error_count(),
                )
                &&& forall|k: TransformKey|
                    final(self).spec_metrics().transform_count(k) == old(self).spec_metrics().transform_count(k)
            },
    {
        match outcome {
            PublishOutcome::Delivered => {
                self.metrics.inc_flink_kafka_filter_transform(
                    destination.to_owned(),
                    op.to_owned(),
                );
            },
            _ => {
                self.metrics.inc_publish_error();
            },
        }
    }
}

} // verus!
