//! Label-indexed monotonic counters: one family counting every parsed
//! change event, one counting every successfully forwarded event, and
//! plain counters for parse and publish failures.

use vstd::prelude::*;

verus! {

/// The label set of the observed-event family: the record's source
/// topic, and the database, table and operation code of its envelope.
#[verifier::ext_equal]
pub ghost struct EventKey {
    pub topic: Seq<char>,
    pub db: Seq<char>,
    pub table: Seq<char>,
    pub op: Seq<char>,
}

/// The label set of the forwarded-event family: the destination topic
/// and the operation code.
#[verifier::ext_equal]
pub ghost struct TransformKey {
    pub topic: Seq<char>,
    pub op: Seq<char>,
}

pub open spec fn event_key(topic: Seq<char>, db: Seq<char>, table: Seq<char>, op: Seq<char>) -> EventKey {
    EventKey { topic, db, table, op }
}

pub open spec fn transform_key(topic: Seq<char>, op: Seq<char>) -> TransformKey {
    TransformKey { topic, op }
}

/// One increment of a monotonic counter: counters saturate at the top of
/// their range instead of wrapping.
pub open spec fn bump(n: nat) -> nat {
    if n < u64::MAX {
        n + 1
    } else {
        n
    }
}

struct EventLabels {
    topic: String,
    db: String,
    table: String,
    op: String,
}

impl View for EventLabels {
    type V = EventKey;

    closed spec fn view(&self) -> EventKey {
        EventKey { topic: self.topic@, db: self.db@, table: self.table@, op: self.op@ }
    }
}

struct TransformLabels {
    topic: String,
    op: String,
}

impl View for TransformLabels {
    type V = TransformKey;

    closed spec fn view(&self) -> TransformKey {
        TransformKey { topic: self.topic@, op: self.op@ }
    }
}

/// The value of the counter keyed `k` in a family laid out as parallel
/// sequences of label sets and values: the value beside the first label
/// set equal to `k`, or zero when none is.
spec fn count_in<L: View>(keys: Seq<L>, counts: Seq<u64>, k: L::V) -> nat
    decreases keys.len(),
{
    if keys.len() == 0 || counts.len() == 0 {
        0
    } else if keys[0]@ == k {
        counts[0] as nat
    } else {
        count_in(keys.drop_first(), counts.drop_first(), k)
    }
}

proof fn lemma_count_at_first_match<L: View>(keys: Seq<L>, counts: Seq<u64>, k: L::V, i: int)
    requires
        keys.len() == counts.len(),
        0 <= i < keys.len(),
        keys[i]@ == k,
        forall|j: int| 0 <= j < i ==> keys[j]@ != k,
    ensures
        count_in(keys, counts, k) == counts[i] as nat,
    decreases i,
{
    if i > 0 {
        lemma_count_at_first_match(keys.drop_first(), counts.drop_first(), k, i - 1);
    }
}

proof fn lemma_count_no_match<L: View>(keys: Seq<L>, counts: Seq<u64>, k: L::V)
    requires
        keys.len() == counts.len(),
        forall|j: int| 0 <= j < keys.len() ==> keys[j]@ != k,
    ensures
        count_in(keys, counts, k) == 0,
    decreases keys.len(),
{
    if keys.len() > 0 {
        lemma_count_no_match(keys.drop_first(), counts.drop_first(), k);
    }
}

proof fn lemma_count_update_other<L: View>(
    keys: Seq<L>,
    counts: Seq<u64>,
    i: int,
    v: u64,
    k2: L::V,
)
    requires
        keys.len() == counts.len(),
        0 <= i < keys.len(),
        keys[i]@ != k2,
    ensures
        count_in(keys, counts.update(i, v), k2) == count_in(keys, counts, k2),
    decreases keys.len(),
{
    if i == 0 {
        assert(counts.update(i, v).drop_first() =~= counts.drop_first());
    } else {
        if keys[0]@ != k2 {
            assert(counts.update(i, v).drop_first() =~= counts.drop_first().update(i - 1, v));
            lemma_count_update_other(keys.drop_first(), counts.drop_first(), i - 1, v, k2);
        }
    }
}

proof fn lemma_count_push_new<L: View>(keys: Seq<L>, counts: Seq<u64>, key: L, v: u64)
    requires
        keys.len() == counts.len(),
        forall|j: int| 0 <= j < keys.len() ==> keys[j]@ != key@,
    ensures
        count_in(keys.push(key), counts.push(v), key@) == v as nat,
    decreases keys.len(),
{
    if keys.len() == 0 {
        assert(keys.push(key)[0] == key);
        assert(keys.push(key).drop_first() =~= keys);
        assert(counts.push(v).drop_first() =~= counts);
    } else {
        assert(keys.push(key)[0] == keys[0]);
        assert(counts.push(v)[0] == counts[0]);
        assert(keys.push(key).drop_first() =~= keys.drop_first().push(key));
        assert(counts.push(v).drop_first() =~= counts.drop_first().push(v));
        lemma_count_push_new(keys.drop_first(), counts.drop_first(), key, v);
    }
}

proof fn lemma_count_push_other<L: View>(keys: Seq<L>, counts: Seq<u64>, key: L, v: u64, k2: L::V)
    requires
        keys.len() == counts.len(),
        key@ != k2,
    ensures
        count_in(keys.push(key), counts.push(v), k2) == count_in(keys, counts, k2),
    decreases keys.len(),
{
    if keys.len() == 0 {
        assert(keys.push(key)[0] == key);
        assert(keys.push(key).drop_first() =~= keys);
        assert(counts.push(v).drop_first() =~= counts);
    } else {
        assert(keys.push(key)[0] == keys[0]);
        assert(counts.push(v)[0] == counts[0]);
        assert(keys.push(key).drop_first() =~= keys.drop_first().push(key));
        assert(counts.push(v).drop_first() =~= counts.drop_first().push(v));
        lemma_count_push_other(keys.drop_first(), counts.drop_first(), key, v, k2);
    }
}

/// The two counter families and the two failure counters. Counters are
/// monotonic for the life of the value and reset only when a fresh value
/// is made.
pub struct Metrics {
    event_keys: Vec<EventLabels>,
    event_counts: Vec<u64>,
    transform_keys: Vec<TransformLabels>,
    transform_counts: Vec<u64>,
    parse_errors: u64,
    publish_errors: u64,
}

impl Metrics {
    /// Each family keeps one value beside each label set it has seen.
    pub closed spec fn wf(&self) -> bool {
        &&& self.event_keys@.len() == self.event_counts@.len()
        &&& self.transform_keys@.len() == self.transform_counts@.len()
    }

    /// The observed-event counter for one label set.
    pub closed spec fn cdc_event_count(&self, k: EventKey) -> nat {
        count_in(self.event_keys@, self.event_counts@, k)
    }

    /// The forwarded-event counter for one label set.
    pub closed spec fn transform_count(&self, k: TransformKey) -> nat {
        count_in(self.transform_keys@, self.transform_counts@, k)
    }

    /// The label sets the observed-event family has seen, oldest first.
    pub closed spec fn cdc_event_label_sets(&self) -> Seq<EventKey> {
        self.event_keys@.map_values(|l: EventLabels| l@)
    }

    /// The label sets the forwarded-event family has seen, oldest first.
    pub closed spec fn transform_label_sets(&self) -> Seq<TransformKey> {
        self.transform_keys@.map_values(|l: TransformLabels| l@)
    }

    /// How many records were rejected as malformed.
    pub closed spec fn parse_error_count(&self) -> nat {
        self.parse_errors as nat
    }

    /// How many publishes failed or timed out.
    pub closed spec fn publish_error_count(&self) -> nat {
        self.publish_errors as nat
    }

    /// Fresh counters: every counter of every family reads zero.
    pub fn default() -> (r: Metrics)
        ensures
            r.wf(),
            forall|k: EventKey| r.cdc_event_count(k) == 0,
            forall|k: TransformKey| r.transform_count(k) == 0,
            r.parse_error_count() == 0,
            r.publish_error_count() == 0,
    {
        Metrics {
            event_keys: Vec::new(),
            event_counts: Vec::new(),
            transform_keys: Vec::new(),
            transform_counts: Vec::new(),
            parse_errors: 0,
            publish_errors: 0,
        }
    }

    /// Counts one parsed change event under its label set; every other
    /// counter is left as it was.
    #[verifier::loop_isolation(false)]
    pub fn inc_flink_cdc_event(&mut self, topic: String, db: String, table: String, op: String)
        requires
            old(self).wf(),
        ensures
            final(self).wf(),
            final(self).cdc_event_count(event_key(topic@, db@, table@, op@)) == bump(
                old(self).cdc_event_count(event_key(topic@, db@, table@, op@)),
            ),
            forall|k: EventKey|
                k != event_key(topic@, db@, table@, op@) ==> final(self).cdc_event_count(k) == old(
                    self,
                ).cdc_event_count(k),
            forall|k: TransformKey| final(self).transform_count(k) == old(self).transform_count(k),
            final(self).parse_error_count() == old(self).parse_error_count(),
            final(self).publish_error_count() == old(self).publish_error_count(),
    {
        let ghost key = event_key(topic@, db@, table@, op@);
        let ghost prev = *self;
        let n = self.event_keys.len();
        for i in 0..n
            invariant
                *self == prev,
                n == self.event_keys.len(),
                n == self.event_counts.len(),
                forall|j: int| 0 <= j < i ==> self.event_keys@[j]@ != key,
        {
            let labels = &self.event_keys[i];
            if labels.topic == topic && labels.db == db && labels.table == table && labels.op
                == op {
                assert(self.event_keys@[i as int]@ =~= key);
                let c = self.event_counts[i];
                let next = if c < u64::MAX {
                    c + 1
                } else {
                    c
                };
                self.event_counts[i] = next;
                proof {
                    lemma_count_at_first_match(prev.event_keys@, prev.event_counts@, key, i as int);
                    lemma_count_at_first_match(self.event_keys@, self.event_counts@, key, i as int);
                    assert forall|k: EventKey| k != key implies self.cdc_event_count(k)
                        == prev.cdc_event_count(k) by {
                        if self.event_keys@[i as int]@ != k {
                            lemma_count_update_other(
                                prev.event_keys@,
                                prev.event_counts@,
                                i as int,
                                next,
                                k,
                            );
                        }
                    }
                }
                return ;
            }
            assert(self.event_keys@[i as int]@ != key);
        }
        proof {
            lemma_count_no_match(self.event_keys@, self.event_counts@, key);
        }
        let labels = EventLabels { topic, db, table, op };
        proof {
            lemma_count_push_new(self.event_keys@, self.event_counts@, labels, 1u64);
            assert forall|k: EventKey| k != key implies count_in(
                self.event_keys@.push(labels),
                self.event_counts@.push(1u64),
                k,
            ) == prev.cdc_event_count(k) by {
                lemma_count_push_other(self.event_keys@, self.event_counts@, labels, 1u64, k);
            }
        }
        self.event_keys.push(labels);
        self.event_counts.push(1);
    }

    /// Counts one successfully forwarded event under its label set; every
    /// other counter is left as it was.
    #[verifier::loop_isolation(false)]
    pub fn inc_flink_kafka_filter_transform(&mut self, topic: String, op: String)
        requires
            old(self).wf(),
        ensures
            final(self).wf(),
            final(self).transform_count(transform_key(topic@, op@)) == bump(
                old(self).transform_count(transform_key(topic@, op@)),
            ),
            forall|k: TransformKey|
                k != transform_key(topic@, op@) ==> final(self).transform_count(k) == old(
                    self,
                ).transform_count(k),
            forall|k: EventKey| final(self).cdc_event_count(k) == old(self).cdc_event_count(k),
            final(self).parse_error_count() == old(self).parse_error_count(),
            final(self).publish_error_count() == old(self).publish_error_count(),
    {
        let ghost key = transform_key(topic@, op@);
        let ghost prev = *self;
        let n = self.transform_keys.len();
        for i in 0..n
            invariant
                *self == prev,
                n == self.transform_keys.len(),
                n == self.transform_counts.len(),
                forall|j: int| 0 <= j < i ==> self.transform_keys@[j]@ != key,
        {
            let labels = &self.transform_keys[i];
            if labels.topic == topic && labels.op == op {
                assert(self.transform_keys@[i as int]@ =~= key);
                let c = self.transform_counts[i];
                let next = if c < u64::MAX {
                    c + 1
                } else {
                    c
                };
                self.transform_counts[i] = next;
                proof {
                    lemma_count_at_first_match(
                        prev.transform_keys@,
                        prev.transform_counts@,
                        key,
                        i as int,
                    );
                    lemma_count_at_first_match(
                        self.transform_keys@,
                        self.transform_counts@,
                        key,
                        i as int,
                    );
                    assert forall|k: TransformKey| k != key implies self.transform_count(k)
                        == prev.transform_count(k) by {
                        if self.transform_keys@[i as int]@ != k {
                            lemma_count_update_other(
                                prev.transform_keys@,
                                prev.transform_counts@,
                                i as int,
                                next,
                                k,
                            );
                        }
                    }
                }
                return ;
            }
            assert(self.transform_keys@[i as int]@ != key);
        }
        proof {
            lemma_count_no_match(self.transform_keys@, self.transform_counts@, key);
        }
        let labels = TransformLabels { topic, op };
        proof {
            lemma_count_push_new(self.transform_keys@, self.transform_counts@, labels, 1u64);
            assert forall|k: TransformKey| k != key implies count_in(
                self.transform_keys@.push(labels),
                self.transform_counts@.push(1u64),
                k,
            ) == prev.transform_count(k) by {
                lemma_count_push_other(
                    self.transform_keys@,
                    self.transform_counts@,
                    labels,
                    1u64,
                    k,
                );
            }
        }
        self.transform_keys.push(labels);
        self.transform_counts.push(1);
    }

    /// Counts one malformed record; every other counter is left as it
    /// was.
    pub fn inc_parse_error(&mut self)
        requires
            old(self).wf(),
        ensures
            final(self).wf(),
            final(self).parse_error_count() == bump(old(self).parse_error_count()),
            forall|k: EventKey| final(self).cdc_event_count(k) == old(self).cdc_event_count(k),
            forall|k: TransformKey| final(self).transform_count(k) == old(self).transform_count(k),
            final(self).publish_error_count() == old(self).publish_error_count(),
    {
        if self.parse_errors < u64::MAX {
            self.parse_errors = self.parse_errors + 1;
        }
    }

    /// Counts one failed or timed-out publish; every other counter is
    /// left as it was.
    pub fn inc_publish_error(&mut self)
        requires
            old(self).wf(),
        ensures
            final(self).wf(),
            final(self).publish_error_count() == bump(old(self).publish_error_count()),
            forall|k: EventKey| final(self).cdc_event_count(k) == old(self).cdc_event_count(k),
            forall|k: TransformKey| final(self).transform_count(k) == old(self).transform_count(k),
            final(self).parse_error_count() == old(self).parse_error_count(),
    {
        if self.publish_errors < u64::MAX {
            self.publish_errors = self.publish_errors + 1;
        }
    }

    /// Reads the observed-event counter for one label set.
    #[verifier::loop_isolation(false)]
    pub fn get_flink_cdc_event(&self, topic: &str, db: &str, table: &str, op: &str) -> (r: u64)
        requires
            self.wf(),
        ensures
            r as nat == self.cdc_event_count(event_key(topic@, db@, table@, op@)),
    {
        let ghost key = event_key(topic@, db@, table@, op@);
        let topic = topic.to_owned();
        let db = db.to_owned();
        let table = table.to_owned();
        let op = op.to_owned();
        let n = self.event_keys.len();
        for i in 0..n
            invariant
                n == self.event_keys.len(),
                n == self.event_counts.len(),
                topic@ == key.topic,
                db@ == key.db,
                table@ == key.table,
                op@ == key.op,
                forall|j: int| 0 <= j < i ==> self.event_keys@[j]@ != key,
        {
            let labels = &self.event_keys[i];
            if labels.topic == topic && labels.db == db && labels.table == table && labels.op
                == op {
                proof {
                    assert(self.event_keys@[i as int]@ =~= key);
                    lemma_count_at_first_match(self.event_keys@, self.event_counts@, key, i as int);
                }
                return self.event_counts[i];
            }
            assert(self.event_keys@[i as int]@ != key);
        }
        proof {
            lemma_count_no_match(self.event_keys@, self.event_counts@, key);
        }
        0
    }

    /// Reads the forwarded-event counter for one label set.
    #[verifier::loop_isolation(false)]
    pub fn get_flink_kafka_filter_transform(&self, topic: &str, op: &str) -> (r: u64)
        requires
            self.wf(),
        ensures
            r as nat == self.transform_count(transform_key(topic@, op@)),
    {
        let ghost key = transform_key(topic@, op@);
        let topic = topic.to_owned();
        let op = op.to_owned();
        let n = self.transform_keys.len();
        for i in 0..n
            invariant
                n == self.transform_keys.len(),
                n == self.transform_counts.len(),
                topic@ == key.topic,
                op@ == key.op,
                forall|j: int| 0 <= j < i ==> self.transform_keys@[j]@ != key,
        {
            let labels = &self.transform_keys[i];
            if labels.topic == topic && labels.op == op {
                proof {
                    assert(self.transform_keys@[i as int]@ =~= key);
                    lemma_count_at_first_match(
                        self.transform_keys@,
                        self.transform_counts@,
                        key,
                        i as int,
                    );
                }
                return self.transform_counts[i];
            }
            assert(self.transform_keys@[i as int]@ != key);
        }
        proof {
            lemma_count_no_match(self.transform_keys@, self.transform_counts@, key);
        }
        0
    }

    /// Reads the malformed-record counter.
    pub fn get_parse_errors(&self) -> (r: u64)
        ensures
            r as nat == self.parse_error_count(),
    {
        self.parse_errors
    }

    /// Reads the failed-publish counter.
    pub fn get_publish_errors(&self) -> (r: u64)
        ensures
            r as nat == self.publish_error_count(),
    {
        self.publish_errors
    }

    /// Every label set the observed-event family has seen, beside its
    /// counter value, for exposition.
    #[verifier::loop_isolation(false)]
    pub fn cdc_event_entries(&self) -> (r: Vec<(String, String, String, String, u64)>)
        requires
            self.wf(),
        ensures
            r@.len() == self.cdc_event_label_sets().len(),
            forall|j: int|
                0 <= j < r@.len() ==> event_key(
                    (#[trigger] r@[j]).0@,
                    r@[j].1@,
                    r@[j].2@,
                    r@[j].3@,
                ) == self.cdc_event_label_sets()[j] && r@[j].4 as nat == self.cdc_event_count(
                    self.cdc_event_label_sets()[j],
                ),
    {
        let mut out: Vec<(String, String, String, String, u64)> = Vec::new();
        let n = self.event_keys.len();
        for i in 0..n
            invariant
                n == self.event_keys.len(),
                n == self.event_counts.len(),
                out@.len() == i,
                forall|j: int|
                    0 <= j < out@.len() ==> event_key(
                        (#[trigger] out@[j]).0@,
                        out@[j].1@,
                        out@[j].2@,
                        out@[j].3@,
                    ) == self.cdc_event_label_sets()[j] && out@[j].4 as nat
                        == self.cdc_event_count(self.cdc_event_label_sets()[j]),
        {
            let labels = &self.event_keys[i];
            let value = self.get_flink_cdc_event(
                labels.topic.as_str(),
                labels.db.as_str(),
                labels.table.as_str(),
                labels.op.as_str(),
            );
            out.push(
                (
                    labels.topic.clone(),
                    labels.db.clone(),
                    labels.table.clone(),
                    labels.op.clone(),
                    value,
                ),
            );
            proof {
                assert(event_key(out@[i as int].0@, out@[i as int].1@, out@[i as int].2@, out@[i as int].3@)
                    =~= self.cdc_event_label_sets()[i as int]);
            }
        }
        out
    }

    /// Every label set the forwarded-event family has seen, beside its
    /// counter value, for exposition.
    #[verifier::loop_isolation(false)]
    pub fn transform_entries(&self) -> (r: Vec<(String, String, u64)>)
        requires
            self.wf(),
        ensures
            r@.len() == self.transform_label_sets().len(),
            forall|j: int|
                0 <= j < r@.len() ==> transform_key((#[trigger] r@[j]).0@, r@[j].1@)
                    == self.transform_label_sets()[j] && r@[j].2 as nat == self.transform_count(
                    self.transform_label_sets()[j],
                ),
    {
        let mut out: Vec<(String, String, u64)> = Vec::new();
        let n = self.transform_keys.len();
        for i in 0..n
            invariant
                n == self.transform_keys.len(),
                n == self.transform_counts.len(),
                out@.len() == i,
                forall|j: int|
                    0 <= j < out@.len() ==> transform_key((#[trigger] out@[j]).0@, out@[j].1@)
                        == self.transform_label_sets()[j] && out@[j].2 as nat
                        == self.transform_count(self.transform_label_sets()[j]),
        {
            let labels = &self.transform_keys[i];
            let value = self.get_flink_kafka_filter_transform(
                labels.topic.as_str(),
                labels.op.as_str(),
            );
            out.push((labels.topic.clone(), labels.op.clone(), value));
            proof {
                assert(transform_key(out@[i as int].0@, out@[i as int].1@)
                    =~= self.transform_label_sets()[i as int]);
            }
        }
        out
    }
}

/// The counter one label set reads after a run of increments, replayed
/// oldest first from fresh counters.
pub open spec fn replayed_count(events: Seq<EventKey>, k: EventKey) -> nat
    decreases events.len(),
{
    if events.len() == 0 {
        0
    } else if events.last() == k {
        bump(replayed_count(events.drop_last(), k))
    } else {
        replayed_count(events.drop_last(), k)
    }
}

/// How often one label set occurs in a run of increments.
pub open spec fn occurrence_count(events: Seq<EventKey>, k: EventKey) -> nat
    decreases events.len(),
{
    if events.len() == 0 {
        0
    } else if events.last() == k {
        occurrence_count(events.drop_last(), k) + 1
    } else {
        occurrence_count(events.drop_last(), k)
    }
}

proof fn lemma_occurrence_le_len(events: Seq<EventKey>, k: EventKey)
    ensures
        occurrence_count(events, k) <= events.len(),
    decreases events.len(),
{
    if events.len() > 0 {
        lemma_occurrence_le_len(events.drop_last(), k);
    }
}

/// Law: after a run of increments from fresh counters, every label set's
/// counter reads exactly the number of times it was incremented — nothing
/// is lost and nothing is counted twice — for every run short enough that
/// no counter saturates its range.
pub proof fn lemma_counters_are_exact(events: Seq<EventKey>, k: EventKey)
    requires
        events.len() <= u64::MAX,
    ensures
        replayed_count(events, k) == occurrence_count(events, k),
    decreases events.len(),
{
    if events.len() > 0 {
        lemma_counters_are_exact(events.drop_last(), k);
        lemma_occurrence_le_len(events.drop_last(), k);
    }
}

} // verus!
