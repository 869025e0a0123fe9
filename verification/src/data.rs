//! The data model: levels, field values, event records, span data and
//! finished-span records, together with their mathematical views.

use vstd::prelude::*;

verus! {

/// Severity of an event record.
#[derive(Clone, Copy, PartialEq, Eq, Structural, Debug)]
pub enum Level {
    Trace,
    Debug,
    Info,
    Warn,
    Error,
}

/// A structured field value attached to an event or a span.
#[derive(Debug)]
pub enum FieldValue {
    Text(String),
    Integer(i64),
    Boolean(bool),
}

/// Mathematical view of a `FieldValue`.
#[verifier::ext_equal]
pub ghost enum ValueV {
    Text(Seq<char>),
    Integer(i64),
    Boolean(bool),
}

impl View for FieldValue {
    type V = ValueV;

    open spec fn view(&self) -> ValueV {
        match self {
            FieldValue::Text(s) => ValueV::Text(s@),
            FieldValue::Integer(i) => ValueV::Integer(*i),
            FieldValue::Boolean(b) => ValueV::Boolean(*b),
        }
    }
}

impl FieldValue {
    /// An explicit copy whose view is known to be preserved.
    pub fn duplicate(&self) -> (r: FieldValue)
        ensures
            r@ == self@,
    {
        match self {
            FieldValue::Text(s) => FieldValue::Text(s.clone()),
            FieldValue::Integer(i) => FieldValue::Integer(*i),
            FieldValue::Boolean(b) => FieldValue::Boolean(*b),
        }
    }
}

/// View of an ordered name/value field list.
pub open spec fn fields_view(fields: Seq<(String, FieldValue)>) -> Seq<(Seq<char>, ValueV)> {
    fields.map_values(|p: (String, FieldValue)| (p.0@, p.1@))
}

/// An explicit copy of a field list whose view is known to be preserved.
pub fn duplicate_fields(fields: &Vec<(String, FieldValue)>) -> (r: Vec<(String, FieldValue)>)
    ensures
        fields_view(r@) == fields_view(fields@),
{
    let mut out: Vec<(String, FieldValue)> = Vec::new();
    let mut i: usize = 0;
    while i < fields.len()
        invariant
            i <= fields.len(),
            out@.len() == i,
            forall|j: int|
                0 <= j < i ==> #[trigger] out@[j].0@ == fields@[j].0@ && out@[j].1@ == fields@[j].1@,
        decreases fields.len() - i,
    {
        let name = fields[i].0.clone();
        let value = fields[i].1.duplicate();
        out.push((name, value));
        i += 1;
    }
    proof {
        assert(fields_view(out@) =~= fields_view(fields@));
    }
    out
}

/// An immutable structured fact attached to the span that was active
/// when it was recorded.
#[derive(Debug)]
pub struct EventRecord {
    pub level: Level,
    pub message: String,
    pub fields: Vec<(String, FieldValue)>,
    pub span_id: Option<u64>,
    pub timestamp: u64,
}

/// Mathematical view of an `EventRecord`.
#[verifier::ext_equal]
pub ghost struct EventV {
    pub level: Level,
    pub message: Seq<char>,
    pub fields: Seq<(Seq<char>, ValueV)>,
    pub span_id: Option<u64>,
    pub timestamp: u64,
}

impl View for EventRecord {
    type V = EventV;

    open spec fn view(&self) -> EventV {
        EventV {
            level: self.level,
            message: self.message@,
            fields: fields_view(self.fields@),
            span_id: self.span_id,
            timestamp: self.timestamp,
        }
    }
}

impl EventRecord {
    /// An explicit copy whose view is known to be preserved.
    pub fn duplicate(&self) -> (r: EventRecord)
        ensures
            r@ == self@,
    {
        let r = EventRecord {
            level: self.level,
            message: self.message.clone(),
            fields: duplicate_fields(&self.fields),
            span_id: self.span_id,
            timestamp: self.timestamp,
        };
        proof {
            assert(r@ =~= self@);
        }
        r
    }
}

/// A named, hierarchical scope: a node of the trace forest.
/// Its identifier is its index in the registry's span store.
#[derive(Debug)]
pub struct SpanData {
    pub id: u64,
    pub name: String,
    pub attributes: Vec<(String, FieldValue)>,
    pub parent_id: Option<u64>,
    pub started_at: u64,
    pub ended_at: Option<u64>,
    pub event_count: u64,
    pub open_enters: u64,
}

/// Mathematical view of a `SpanData`.
#[verifier::ext_equal]
pub ghost struct SpanV {
    pub id: u64,
    pub name: Seq<char>,
    pub attributes: Seq<(Seq<char>, ValueV)>,
    pub parent_id: Option<u64>,
    pub started_at: u64,
    pub ended_at: Option<u64>,
    pub event_count: u64,
    pub open_enters: u64,
}

impl View for SpanData {
    type V = SpanV;

    open spec fn view(&self) -> SpanV {
        SpanV {
            id: self.id,
            name: self.name@,
            attributes: fields_view(self.attributes@),
            parent_id: self.parent_id,
            started_at: self.started_at,
            ended_at: self.ended_at,
            event_count: self.event_count,
            open_enters: self.open_enters,
        }
    }
}

impl SpanData {
    /// An explicit copy whose view is known to be preserved.
    pub fn duplicate(&self) -> (r: SpanData)
        ensures
            r@ == self@,
    {
        let r = SpanData {
            id: self.id,
            name: self.name.clone(),
            attributes: duplicate_fields(&self.attributes),
            parent_id: self.parent_id,
            started_at: self.started_at,
            ended_at: self.ended_at,
            event_count: self.event_count,
            open_enters: self.open_enters,
        };
        proof {
            assert(r@ =~= self@);
        }
        r
    }
}

/// A finished-span record, assembled when a span closes and handed to
/// the trace exporter's batching queue.
#[derive(Debug)]
pub struct FinishedSpan {
    pub name: String,
    pub attributes: Vec<(String, FieldValue)>,
    pub parent_id: Option<u64>,
    pub started_at: u64,
    pub ended_at: u64,
    pub events: Vec<EventRecord>,
}

/// Mathematical view of a `FinishedSpan`.
#[verifier::ext_equal]
pub ghost struct FinishedV {
    pub name: Seq<char>,
    pub attributes: Seq<(Seq<char>, ValueV)>,
    pub parent_id: Option<u64>,
    pub started_at: u64,
    pub ended_at: u64,
    pub events: Seq<EventV>,
}

impl View for FinishedSpan {
    type V = FinishedV;

    open spec fn view(&self) -> FinishedV {
        FinishedV {
            name: self.name@,
            attributes: fields_view(self.attributes@),
            parent_id: self.parent_id,
            started_at: self.started_at,
            ended_at: self.ended_at,
            events: self.events@.map_values(|e: EventRecord| e@),
        }
    }
}

/// Faults of the pipeline itself.
#[derive(Clone, Copy, PartialEq, Eq, Structural, Debug)]
pub enum TraceError {
    /// Configuration fault: the service name is empty.
    EmptyServiceName,
    /// Configuration fault: the collector endpoint is empty.
    EmptyEndpoint,
    /// The span identifier does not name a span of the store.
    UnknownSpan,
    /// The span has already been closed.
    SpanClosed,
    /// Closing was rejected because the span still has open children.
    OpenChildren,
    /// Closing was rejected because the span is still entered
    /// somewhere: its enter activity has not all been reported exited.
    StillEntered,
    /// An exit did not match the top of the context stack.
    NotLifo,
}

/// Faults reported by the external trace exporter.
#[derive(Clone, Copy, PartialEq, Eq, Structural, Debug)]
pub enum ExportError {
    /// A transient transport fault; the exporter retries on its own.
    Transient,
    /// The final flush did not complete within its bound.
    ShutdownTimeout,
}

} // verus!
