//! The change-event envelope: decoding a raw Debezium payload into an
//! operation code plus the source database and table, and classifying
//! the operation code.

use vstd::prelude::*;

verus! {

/// The fields of a well-formed Debezium envelope — the operation code,
/// the source database and the source table — as `serde_json` decodes
/// them from the payload bytes; `None` when the payload is not a JSON
/// object carrying a string `op` and a `source` object with string `db`
/// and `table` fields.
pub uninterp spec fn decoded_envelope(payload: Seq<u8>) -> Option<(Seq<char>, Seq<char>, Seq<char>)>;

/// Relies on `serde_json::from_slice` and on `serde_json::Value`'s `get`
/// and `as_str` accessors: which fields a JSON payload decodes to depends
/// on the payload bytes alone.
#[verifier::external_body]
fn decode_envelope_fields(payload: &[u8]) -> (r: Option<(String, String, String)>)
    ensures
        r matches Some(f) ==> decoded_envelope(payload@) == Some((f.0@, f.1@, f.2@)),
        r is None ==> decoded_envelope(payload@) is None,
{
    let value: serde_json::Value = serde_json::from_slice(payload).ok()?;
    let op = value.get("op")?.as_str()?.to_owned();
    let source = value.get("source")?;
    let db = source.get("db")?.as_str()?.to_owned();
    let table = source.get("table")?.as_str()?.to_owned();
    Some((op, db, table))
}

/// The kind of database change an event describes.
#[derive(Clone, Copy, Debug, PartialEq, Eq, Structural)]
pub enum Op {
    Create,
    Update,
    Delete,
    SnapshotRead,
    Unknown,
}

/// The operation kind a Debezium operation code stands for: `c`, `u`,
/// `d` and `r` are create, update, delete and snapshot read; any other
/// code is unknown.
pub open spec fn op_of(code: Seq<char>) -> Op {
    if code == "c"@ {
        Op::Create
    } else if code == "u"@ {
        Op::Update
    } else if code == "d"@ {
        Op::Delete
    } else if code == "r"@ {
        Op::SnapshotRead
    } else {
        Op::Unknown
    }
}

impl Op {
    /// Classifies a Debezium operation code.
    pub fn from_code(code: &str) -> (r: Op)
        ensures
            r == op_of(code@),
    {
        let owned = code.to_owned();
        if owned == "c".to_owned() {
            Op::Create
        } else if owned == "u".to_owned() {
            Op::Update
        } else if owned == "d".to_owned() {
            Op::Delete
        } else if owned == "r".to_owned() {
            Op::SnapshotRead
        } else {
            Op::Unknown
        }
    }
}

/// The mathematical content of an envelope's source metadata.
pub ghost struct SourceView {
    pub db: Seq<char>,
    pub table: Seq<char>,
}

/// The source metadata of a change event: the originating database and
/// table.
pub struct Source {
    db: String,
    table: String,
}

impl View for Source {
    type V = SourceView;

    closed spec fn view(&self) -> SourceView {
        SourceView { db: self.db@, table: self.table@ }
    }
}

impl Source {
    pub fn new(db: String, table: String) -> (r: Source)
        ensures
            r@ == (SourceView { db: db@, table: table@ }),
    {
        Source { db, table }
    }

    pub fn db(&self) -> (r: &str)
        ensures
            r@ == self@.db,
    {
        self.db.as_str()
    }

    pub fn table(&self) -> (r: &str)
        ensures
            r@ == self@.table,
    {
        self.table.as_str()
    }
}

/// The mathematical content of a decoded envelope.
pub ghost struct DebeziumJsonView {
    pub op: Seq<char>,
    pub source: SourceView,
}

/// One decoded change-event envelope: the operation code and the source
/// metadata.
pub struct DebeziumJson {
    op: String,
    source: Source,
}

impl View for DebeziumJson {
    type V = DebeziumJsonView;

    closed spec fn view(&self) -> DebeziumJsonView {
        DebeziumJsonView { op: self.op@, source: self.source@ }
    }
}

impl DebeziumJson {
    pub fn new(op: String, source: Source) -> (r: DebeziumJson)
        ensures
            r@ == (DebeziumJsonView { op: op@, source: source@ }),
    {
        DebeziumJson { op, source }
    }

    pub fn db(&self) -> (r: &str)
        ensures
            r@ == self@.source.db,
    {
        self.source.db()
    }

    pub fn table(&self) -> (r: &str)
        ensures
            r@ == self@.source.table,
    {
        self.source.table()
    }

    pub fn op(&self) -> (r: &str)
        ensures
            r@ == self@.op,
    {
        self.op.as_str()
    }

    /// The operation kind of this envelope's code.
    pub fn op_kind(&self) -> (r: Op)
        ensures
            r == op_of(self@.op),
    {
        Op::from_code(self.op.as_str())
    }
}

/// The error a malformed payload is rejected with.
#[derive(Clone, Copy, Debug, PartialEq, Eq, Structural)]
pub enum ParseError {
    /// The payload is not a JSON envelope carrying a string operation
    /// code and source metadata with string database and table fields.
    Malformed,
}

/// Decodes a raw payload into a change-event envelope; rejects exactly
/// the payloads that do not carry the expected fields, and never panics,
/// so one malformed record cannot halt a consume loop that calls this.
pub fn parse_debezium(payload: &[u8]) -> (r: Result<DebeziumJson, ParseError>)
    ensures
        match r {
            Ok(ev) => decoded_envelope(payload@) == Some(
                (ev@.op, ev@.source.db, ev@.source.table),
            ),
            Err(e) => decoded_envelope(payload@) is None && e == ParseError::Malformed,
        },
        r is Ok <==> decoded_envelope(payload@) is Some,
{
    match decode_envelope_fields(payload) {
        Some((op, db, table)) => Ok(DebeziumJson::new(op, Source::new(db, table))),
        None => Err(ParseError::Malformed),
    }
}

} // verus!
