//! Routing configuration: the Kafka connection settings and the ordered
//! routing rules, with resolution of a (source topic, database, table)
//! triple to the destination topic of the earliest matching rule.

use vstd::prelude::*;

verus! {

/// Whether a pattern is a valid regular expression, as `regex::Regex::new`
/// decides it.
pub uninterp spec fn regex_compiles(pattern: Seq<char>) -> bool;

/// Whether a valid regular expression matches anywhere within a text, as
/// `regex::Regex::is_match` decides it (a substring search, not anchored).
pub uninterp spec fn regex_matches(pattern: Seq<char>, text: Seq<char>) -> bool;

/// Relies on `regex::Regex::new`: whether a pattern compiles is a function
/// of the pattern characters alone.
#[verifier::external_body]
fn regex_compile_ok(pattern: &str) -> (r: bool)
    ensures
        r == regex_compiles(pattern@),
{
    regex::Regex::new(pattern).is_ok()
}

/// Relies on `regex::Regex::new` and `regex::Regex::is_match`: whether a
/// pattern compiles, and whether it then matches anywhere within the text,
/// are functions of the pattern and text characters alone.
#[verifier::external_body]
fn regex_found_in(pattern: &str, text: &str) -> (r: bool)
    ensures
        r == (regex_compiles(pattern@) && regex_matches(pattern@, text@)),
{
    match regex::Regex::new(pattern) {
        Ok(re) => re.is_match(text),
        Err(_) => false,
    }
}

/// Kafka connection settings: the broker list, the consumer group, and
/// the source topics the consumer binds to.
pub struct Kafka {
    bootstrap_servers: String,
    group: String,
    bindings: Vec<String>,
}

impl Kafka {
    pub closed spec fn spec_bootstrap_servers(&self) -> Seq<char> {
        self.bootstrap_servers@
    }

    pub closed spec fn spec_group(&self) -> Seq<char> {
        self.group@
    }

    pub closed spec fn spec_bindings(&self) -> Seq<Seq<char>> {
        self.bindings.deep_view()
    }

    pub fn new(bootstrap_servers: String, group: String, bindings: Vec<String>) -> (r: Kafka)
        ensures
            r.spec_bootstrap_servers() == bootstrap_servers@,
            r.spec_group() == group@,
            r.spec_bindings() == bindings.deep_view(),
    {
        Kafka { bootstrap_servers, group, bindings }
    }

    pub fn bootstrap_servers(&self) -> (r: &str)
        ensures
            r@ == self.spec_bootstrap_servers(),
    {
        self.bootstrap_servers.as_str()
    }

    pub fn group(&self) -> (r: &str)
        ensures
            r@ == self.spec_group(),
    {
        self.group.as_str()
    }

    pub fn binding_topics(&self) -> (r: Vec<&str>)
        ensures
            r.deep_view() == self.spec_bindings(),
    {
        let mut topics: Vec<&str> = Vec::new();
        let n = self.bindings.len();
        for i in 0..n
            invariant
                n == self.bindings.len(),
                topics@.len() == i,
                forall|j: int| 0 <= j < i ==> topics@[j]@ == self.bindings@[j]@,
        {
            topics.push(self.bindings[i].as_str());
        }
        proof {
            assert forall|j: int| 0 <= j < n implies topics.deep_view()[j]
                == self.spec_bindings()[j] by {
                assert(topics.deep_view()[j] == topics@[j]@);
                assert(self.bindings.deep_view()[j] == self.bindings@[j]@);
            }
            assert(topics.deep_view() =~= self.spec_bindings());
        }
        topics
    }
}

/// The mathematical content of one routing rule.
pub ghost struct TransformView {
    pub source_topic: Seq<char>,
    pub db: Seq<char>,
    pub table: Seq<char>,
    pub target_topic: Seq<char>,
}

/// One routing rule: events of `source_topic` whose database equals `db`
/// and whose table name contains a match of the pattern `table` are
/// forwarded to `target_topic`.
pub struct Transform {
    source_topic: String,
    db: String,
    table: String,
    target_topic: String,
}

impl View for Transform {
    type V = TransformView;

    closed spec fn view(&self) -> TransformView {
        TransformView {
            source_topic: self.source_topic@,
            db: self.db@,
            table: self.table@,
            target_topic: self.target_topic@,
        }
    }
}

impl DeepView for Transform {
    type V = TransformView;

    open spec fn deep_view(&self) -> TransformView {
        self.view()
    }
}

impl Transform {
    pub fn new(source_topic: String, db: String, table: String, target_topic: String) -> (r:
        Transform)
        ensures
            r@ == (TransformView {
                source_topic: source_topic@,
                db: db@,
                table: table@,
                target_topic: target_topic@,
            }),
    {
        Transform { source_topic, db, table, target_topic }
    }

    pub fn table(&self) -> (r: &str)
        ensures
            r@ == self@.table,
    {
        self.table.as_str()
    }

    pub fn target_topic(&self) -> (r: &str)
        ensures
            r@ == self@.target_topic,
    {
        self.target_topic.as_str()
    }
}

/// Whether a rule applies to a record: the source topic and the database
/// must be equal to the rule's, character for character, and the rule's
/// table pattern must be found somewhere within the table name.
pub open spec fn rule_matches(
    rule: TransformView,
    source_topic: Seq<char>,
    db: Seq<char>,
    table: Seq<char>,
) -> bool {
    &&& rule.source_topic == source_topic
    &&& rule.db == db
    &&& regex_compiles(rule.table)
    &&& regex_matches(rule.table, table)
}

/// The destination of the earliest rule that applies, in declaration
/// order; `None` when no rule applies.
pub open spec fn resolve_spec(
    rules: Seq<TransformView>,
    source_topic: Seq<char>,
    db: Seq<char>,
    table: Seq<char>,
) -> Option<Seq<char>>
    decreases rules.len(),
{
    if rules.len() == 0 {
        None
    } else if rule_matches(rules[0], source_topic, db, table) {
        Some(rules[0].target_topic)
    } else {
        resolve_spec(rules.drop_first(), source_topic, db, table)
    }
}

/// Rule `i` applies and no rule declared before it does.
pub open spec fn matches_no_earlier(
    rules: Seq<TransformView>,
    source_topic: Seq<char>,
    db: Seq<char>,
    table: Seq<char>,
    i: int,
) -> bool {
    &&& 0 <= i < rules.len()
    &&& rule_matches(rules[i], source_topic, db, table)
    &&& forall|j: int| 0 <= j < i ==> !rule_matches(rules[j], source_topic, db, table)
}

/// No rule in the set applies.
pub open spec fn no_rule_matches(
    rules: Seq<TransformView>,
    source_topic: Seq<char>,
    db: Seq<char>,
    table: Seq<char>,
) -> bool {
    forall|i: int| 0 <= i < rules.len() ==> !rule_matches(rules[i], source_topic, db, table)
}

/// The error a rule set is rejected with at load time.
#[derive(Clone, Copy, Debug, PartialEq, Eq)]
pub enum ConfigError {
    /// The rule at this position carries a table pattern that is not a
    /// valid regular expression.
    InvalidTablePattern { index: usize },
}

/// The routing table: the Kafka settings and the ordered rule set, every
/// table pattern of which compiled when the table was built.
pub struct FlinkKafkaTransform {
    kafka: Kafka,
    transforms: Vec<Transform>,
}

impl FlinkKafkaTransform {
    pub closed spec fn spec_kafka(&self) -> Kafka {
        self.kafka
    }

    /// The rule set in declaration order.
    pub closed spec fn rules(&self) -> Seq<TransformView> {
        self.transforms.deep_view()
    }

    /// Every pattern in the table is a valid regular expression.
    pub open spec fn patterns_compile(&self) -> bool {
        forall|i: int| 0 <= i < self.rules().len() ==> regex_compiles(#[trigger] self.rules()[i].table)
    }

    /// Builds the table, compiling every rule's table pattern; rejects the
    /// whole rule set at the first pattern that is not a valid regular
    /// expression.
    pub fn new(kafka: Kafka, transforms: Vec<Transform>) -> (r: Result<
        FlinkKafkaTransform,
        ConfigError,
    >)
        ensures
            match r {
                Ok(t) => {
                    &&& t.spec_kafka() == kafka
                    &&& t.rules() == transforms.deep_view()
                    &&& t.patterns_compile()
                },
                Err(e) => {
                    &&& e matches ConfigError::InvalidTablePattern { index }
                    &&& 0 <= (e->index as int) < transforms.deep_view().len()
                    &&& !regex_compiles(transforms.deep_view()[e->index as int].table)
                },
            },
            r is Err <==> exists|i: int|
                0 <= i < transforms.deep_view().len() && !regex_compiles(
                    #[trigger] transforms.deep_view()[i].table,
                ),
    {
        let n = transforms.len();
        for i in 0..n
            invariant
                n == transforms.len(),
                forall|j: int| 0 <= j < i ==> regex_compiles(
                    #[trigger] transforms.deep_view()[j].table,
                ),
        {
            if !regex_compile_ok(transforms[i].table.as_str()) {
                assert(!regex_compiles(transforms.deep_view()[i as int].table));
                return Err(ConfigError::InvalidTablePattern { index: i });
            }
        }
        Ok(FlinkKafkaTransform { kafka, transforms })
    }

    pub fn bootstrap_servers(&self) -> (r: &str)
        ensures
            r@ == self.spec_kafka().spec_bootstrap_servers(),
    {
        self.kafka.bootstrap_servers()
    }

    pub fn binding_topics(&self) -> (r: Vec<&str>)
        ensures
            r.deep_view() == self.spec_kafka().spec_bindings(),
    {
        self.kafka.binding_topics()
    }

    pub fn group(&self) -> (r: &str)
        ensures
            r@ == self.spec_kafka().spec_group(),
    {
        self.kafka.group()
    }

    /// Resolves a record's source topic, database and table name to the
    /// destination topic of the earliest rule that applies, scanning the
    /// rules in declaration order; `None` when no rule applies, which is
    /// not an error.
    #[verifier::loop_isolation(false)]
    pub fn search_topic(&self, source_topic: &str, db: &str, table: &str) -> (r: Option<&str>)
        ensures
            match r {
                Some(dest) => resolve_spec(self.rules(), source_topic@, db@, table@) == Some(
                    dest@,
                ),
                None => resolve_spec(self.rules(), source_topic@, db@, table@) is None,
            },
            r matches Some(dest) ==> exists|i: int|
                matches_no_earlier(self.rules(), source_topic@, db@, table@, i) && dest@
                    == self.rules()[i].target_topic,
            r is None ==> no_rule_matches(self.rules(), source_topic@, db@, table@),
    {
        let searched_topic = source_topic.to_owned();
        let searched_db = db.to_owned();
        let n = self.transforms.len();
        proof {
            assert(self.rules().skip(0) =~= self.rules());
            lemma_resolve_is_earliest_match(self.rules(), source_topic@, db@, table@);
        }
        for i in 0..n
            invariant
                n == self.transforms.len(),
                searched_topic@ == source_topic@,
                searched_db@ == db@,
                resolve_spec(self.rules(), source_topic@, db@, table@) == resolve_spec(
                    self.rules().skip(i as int),
                    source_topic@,
                    db@,
                    table@,
                ),
        {
            let rule = &self.transforms[i];
            let applies = rule.source_topic == searched_topic && rule.db == searched_db
                && regex_found_in(rule.table.as_str(), table);
            proof {
                assert(self.rules().skip(i as int)[0] == self.rules()[i as int]);
                assert(self.rules().skip(i as int).drop_first() =~= self.rules().skip(
                    i + 1,
                ));
            }
            if applies {
                assert(rule_matches(self.rules()[i as int], source_topic@, db@, table@));
                return Some(rule.target_topic.as_str());
            }
            assert(!rule_matches(self.rules()[i as int], source_topic@, db@, table@));
        }
        proof {
            assert(self.rules().skip(n as int) =~= Seq::<TransformView>::empty());
        }
        None
    }
}

/// Law: resolution returns the destination of the earliest rule whose
/// source topic and database are equal to the input's and whose table
/// pattern is found within the table name, and `None` exactly when no
/// such rule exists.
pub proof fn lemma_resolve_is_earliest_match(
    rules: Seq<TransformView>,
    source_topic: Seq<char>,
    db: Seq<char>,
    table: Seq<char>,
)
    ensures
        resolve_spec(rules, source_topic, db, table) is None ==> no_rule_matches(
            rules,
            source_topic,
            db,
            table,
        ),
        resolve_spec(rules, source_topic, db, table) matches Some(dest) ==> exists|i: int|
            matches_no_earlier(rules, source_topic, db, table, i) && dest
                == rules[i].target_topic,
    decreases rules.len(),
{
    if rules.len() == 0 {
    } else if rule_matches(rules[0], source_topic, db, table) {
        assert(matches_no_earlier(rules, source_topic, db, table, 0));
    } else {
        let rest = rules.drop_first();
        lemma_resolve_is_earliest_match(rest, source_topic, db, table);
        if resolve_spec(rules, source_topic, db, table) is Some {
            let dest = resolve_spec(rules, source_topic, db, table)->Some_0;
            let i = choose|i: int|
                matches_no_earlier(rest, source_topic, db, table, i) && dest
                    == rest[i].target_topic;
            assert(rest[i] == rules[i + 1]);
            assert forall|j: int| 0 <= j < i + 1 implies !rule_matches(
                rules[j],
                source_topic,
                db,
                table,
            ) by {
                if j > 0 {
                    assert(rules[j] == rest[j - 1]);
                }
            }
            assert(matches_no_earlier(rules, source_topic, db, table, i + 1));
        } else {
            assert forall|i: int| 0 <= i < rules.len() implies !rule_matches(
                rules[i],
                source_topic,
                db,
                table,
            ) by {
                if i > 0 {
                    assert(rules[i] == rest[i - 1]);
                }
            }
        }
    }
}

/// Law: when two rules both apply to the same input, the destination
/// returned is that of a rule declared no later than the earlier of the
/// two; a later-declared rule's position never decides the result.
pub proof fn lemma_earlier_rule_wins(
    rules: Seq<TransformView>,
    source_topic: Seq<char>,
    db: Seq<char>,
    table: Seq<char>,
    i: int,
    j: int,
)
    requires
        0 <= i < j < rules.len(),
        rule_matches(rules[i], source_topic, db, table),
        rule_matches(rules[j], source_topic, db, table),
    ensures
        exists|k: int|
            matches_no_earlier(rules, source_topic, db, table, k) && k <= i && resolve_spec(
                rules,
                source_topic,
                db,
                table,
            ) == Some(rules[k].target_topic),
{
    lemma_resolve_is_earliest_match(rules, source_topic, db, table);
    if resolve_spec(rules, source_topic, db, table) is None {
        assert(!rule_matches(rules[i], source_topic, db, table));
    } else {
        let dest = resolve_spec(rules, source_topic, db, table)->Some_0;
        let k = choose|k: int|
            matches_no_earlier(rules, source_topic, db, table, k) && dest
                == rules[k].target_topic;
        if k > i {
            assert(!rule_matches(rules[i], source_topic, db, table));
        }
        assert(matches_no_earlier(rules, source_topic, db, table, k) && k <= i && resolve_spec(
            rules,
            source_topic,
            db,
            table,
        ) == Some(rules[k].target_topic));
    }
}

} // verus!
