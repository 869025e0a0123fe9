//! The layers: polymorphic sinks for span and event notifications.
//! The console printer renders lines; the remote-export layer
//! assembles finished-span records for the trace exporter's queue.

use vstd::prelude::*;
use vstd::string::*;
use crate::data::{EventRecord, EventV, FinishedSpan, FinishedV, SpanData, SpanV};

verus! {

/// The console printer: renders each event to a human-readable line.
/// The lines are buffered here; the host program drains and prints
/// them, so dispatch itself never blocks on output.
pub struct ConsoleLayer {
    pub lines: Vec<String>,
}

impl View for ConsoleLayer {
    type V = Seq<Seq<char>>;

    open spec fn view(&self) -> Seq<Seq<char>> {
        self.lines@.map_values(|s: String| s@)
    }
}

impl ConsoleLayer {
    /// A console layer with no output yet.
    pub fn new() -> (r: ConsoleLayer)
        ensures
            r@ == Seq::<Seq<char>>::empty(),
    {
        let r = ConsoleLayer { lines: Vec::new() };
        proof {
            assert(r@ =~~= Seq::<Seq<char>>::empty());
        }
        r
    }
}

/// Mathematical view of the remote-export layer.
#[verifier::ext_equal]
pub ghost struct RemoteV {
    pub pending: Seq<Seq<EventV>>,
    pub queue: Seq<FinishedV>,
    pub shut_down: bool,
}

/// The remote-export layer: attaches events to their open span and, on
/// close, assembles a finished-span record onto the batching queue.
/// It never performs I/O itself: the host program takes the batch and
/// hands it to the trace exporter.
pub struct RemoteLayer {
    /// Events attached to each created span, indexed by span identifier.
    pub pending: Vec<Vec<EventRecord>>,
    /// Finished-span records awaiting export.
    pub queue: Vec<FinishedSpan>,
    /// Whether the final flush has already taken the queue.
    pub shut_down: bool,
}

impl View for RemoteLayer {
    type V = RemoteV;

    open spec fn view(&self) -> RemoteV {
        RemoteV {
            pending: self.pending@.map_values(|v: Vec<EventRecord>| v@.map_values(|e: EventRecord| e@)),
            queue: self.queue@.map_values(|f: FinishedSpan| f@),
            shut_down: self.shut_down,
        }
    }
}

impl RemoteLayer {
    /// A remote-export layer that has seen no span yet.
    pub fn new() -> (r: RemoteLayer)
        ensures
            r@.pending == Seq::<Seq<EventV>>::empty(),
            r@.queue == Seq::<FinishedV>::empty(),
            !r@.shut_down,
    {
        let r = RemoteLayer { pending: Vec::new(), queue: Vec::new(), shut_down: false };
        proof {
            assert(r@.pending =~~= Seq::<Seq<EventV>>::empty());
            assert(r@.queue =~~= Seq::<FinishedV>::empty());
        }
        r
    }
}

/// A sink for span and event notifications; the set of variants is
/// fixed, so dispatch is a closed match.
pub enum Layer {
    Console(ConsoleLayer),
    Remote(RemoteLayer),
}

/// Mathematical view of a layer.
#[verifier::ext_equal]
pub ghost enum LayerV {
    Console(Seq<Seq<char>>),
    Remote(RemoteV),
}

impl View for Layer {
    type V = LayerV;

    open spec fn view(&self) -> LayerV {
        match self {
            Layer::Console(c) => LayerV::Console(c@),
            Layer::Remote(r) => LayerV::Remote(r@),
        }
    }
}

/// What a layer becomes when a new span is created: the remote layer
/// opens an empty attachment list for it; the console prints nothing.
pub open spec fn spec_layer_on_new_span(l: LayerV) -> LayerV {
    match l {
        LayerV::Console(c) => LayerV::Console(c),
        LayerV::Remote(r) => LayerV::Remote(
            RemoteV { pending: r.pending.push(Seq::empty()), queue: r.queue, shut_down: r.shut_down },
        ),
    }
}

/// What a layer becomes on an event: the console appends the rendered
/// line; the remote layer attaches the event to its enclosing span
/// (and ignores an event with no span or an unknown one).
pub open spec fn spec_layer_on_event(l: LayerV, line: Seq<char>, ev: EventV) -> LayerV {
    match l {
        LayerV::Console(c) => LayerV::Console(c.push(line)),
        LayerV::Remote(r) => match ev.span_id {
            Some(s) => if s < r.pending.len() {
                LayerV::Remote(
                    RemoteV {
                        pending: r.pending.update(s as int, r.pending[s as int].push(ev)),
                        queue: r.queue,
                        shut_down: r.shut_down,
                    },
                )
            } else {
                LayerV::Remote(r)
            },
            None => LayerV::Remote(r),
        },
    }
}

/// What a layer becomes when a span is entered somewhere: both
/// reference variants ignore the transition — the console prints only
/// events, and the remote layer acts only on creation, events and
/// closing.
pub open spec fn spec_layer_on_enter(l: LayerV, span_id: u64) -> LayerV {
    l
}

/// What a layer becomes when one entry of a span is exited: both
/// reference variants ignore the transition.
pub open spec fn spec_layer_on_exit(l: LayerV, span_id: u64) -> LayerV {
    l
}

/// The finished-span record assembled when `span` closes at `ended`,
/// carrying the events that were attached while it was open.
pub open spec fn spec_finished_of(span: SpanV, ended: u64, events: Seq<EventV>) -> FinishedV {
    FinishedV {
        name: span.name,
        attributes: span.attributes,
        parent_id: span.parent_id,
        started_at: span.started_at,
        ended_at: ended,
        events: events,
    }
}

/// What a layer becomes when a span closes: the remote layer moves the
/// span's attached events into a finished-span record on its queue.
pub open spec fn spec_layer_on_close(l: LayerV, span: SpanV, ended: u64) -> LayerV {
    match l {
        LayerV::Console(c) => LayerV::Console(c),
        LayerV::Remote(r) => if span.id < r.pending.len() {
            LayerV::Remote(
                RemoteV {
                    pending: r.pending.update(span.id as int, Seq::empty()),
                    queue: r.queue.push(
                        spec_finished_of(span, ended, r.pending[span.id as int]),
                    ),
                    shut_down: r.shut_down,
                },
            )
        } else {
            LayerV::Remote(r)
        },
    }
}

/// What a layer becomes when the final flush takes its batch, and the
/// batch taken: the first flush takes the whole queue and marks the
/// layer shut down; any later flush takes nothing and changes nothing.
pub open spec fn spec_layer_take_batch(l: LayerV) -> (LayerV, Seq<FinishedV>) {
    match l {
        LayerV::Console(c) => (LayerV::Console(c), Seq::empty()),
        LayerV::Remote(r) => if !r.shut_down {
            (
                LayerV::Remote(RemoteV { pending: r.pending, queue: Seq::empty(), shut_down: true }),
                r.queue,
            )
        } else {
            (LayerV::Remote(r), Seq::empty())
        },
    }
}

/// The final flush is idempotent: taking the batch a second time
/// yields nothing and leaves the layer exactly as the first take left
/// it — no duplicate export and no fault.
pub proof fn lemma_take_batch_idempotent(l: LayerV)
    ensures
        ({
            let (l1, b1) = spec_layer_take_batch(l);
            let (l2, b2) = spec_layer_take_batch(l1);
            &&& b2 == Seq::<FinishedV>::empty()
            &&& l2 == l1
        }),
{
}

impl Layer {
    /// Notifies the layer of a new span.
    pub fn on_new_span(&mut self)
        ensures
            final(self)@ == spec_layer_on_new_span(old(self)@),
    {
        match self {
            Layer::Console(_) => {},
            Layer::Remote(r) => {
                r.pending.push(Vec::new());
                proof {
                    assert(r@.pending =~~= old(self)@->Remote_0.pending.push(Seq::empty()));
                    assert(final(self)@ =~~= spec_layer_on_new_span(old(self)@));
                }
            },
        }
    }

    /// Notifies the layer of an event, with the line the console is to
    /// print for it.
    pub fn on_event(&mut self, line: &str, ev: &EventRecord)
        ensures
            final(self)@ == spec_layer_on_event(old(self)@, line@, ev@),
    {
        match self {
            Layer::Console(c) => {
                c.lines.push(line.to_owned());
                proof {
                    assert(final(self)@ =~~= spec_layer_on_event(old(self)@, line@, ev@));
                }
            },
            Layer::Remote(r) => {
                match ev.span_id {
                    Some(s) => {
                        if s < r.pending.len() as u64 {
                            let idx = s as usize;
                            let mut inner = r.pending.remove(idx);
                            inner.push(ev.duplicate());
                            r.pending.insert(idx, inner);
                            proof {
                                let rv = old(self)@->Remote_0;
                                assert(r@.pending =~~= rv.pending.update(
                                    s as int,
                                    rv.pending[s as int].push(ev@),
                                ));
                                assert(final(self)@ =~~= spec_layer_on_event(old(self)@, line@, ev@));
                            }
                        }
                    },
                    None => {},
                }
            },
        }
    }

    /// Notifies the layer that the span was entered somewhere.
    pub fn on_enter(&mut self, span_id: u64)
        ensures
            final(self)@ == spec_layer_on_enter(old(self)@, span_id),
    {
        match self {
            Layer::Console(_) => {},
            Layer::Remote(_) => {},
        }
    }

    /// Notifies the layer that one entry of the span was exited.
    pub fn on_exit(&mut self, span_id: u64)
        ensures
            final(self)@ == spec_layer_on_exit(old(self)@, span_id),
    {
        match self {
            Layer::Console(_) => {},
            Layer::Remote(_) => {},
        }
    }

    /// Notifies the layer that a span closed at time `ended`.
    pub fn on_close(&mut self, span: &SpanData, ended: u64)
        ensures
            final(self)@ == spec_layer_on_close(old(self)@, span@, ended),
    {
        match self {
            Layer::Console(_) => {},
            Layer::Remote(r) => {
                if span.id < r.pending.len() as u64 {
                    let idx = span.id as usize;
                    let events = r.pending.remove(idx);
                    r.pending.insert(idx, Vec::new());
                    let finished = FinishedSpan {
                        name: span.name.clone(),
                        attributes: crate::data::duplicate_fields(&span.attributes),
                        parent_id: span.parent_id,
                        started_at: span.started_at,
                        ended_at: ended,
                        events,
                    };
                    proof {
                        assert(finished@ =~~= spec_finished_of(
                            span@,
                            ended,
                            old(self)@->Remote_0.pending[span@.id as int],
                        ));
                    }
                    r.queue.push(finished);
                    proof {
                        let rv = old(self)@->Remote_0;
                        assert(r@.pending =~~= rv.pending.update(span@.id as int, Seq::empty()));
                        assert(r@.queue =~~= rv.queue.push(
                            spec_finished_of(span@, ended, rv.pending[span@.id as int]),
                        ));
                        assert(final(self)@ =~~= spec_layer_on_close(old(self)@, span@, ended));
                    }
                }
            },
        }
    }

    /// Takes the layer's pending export batch for the final flush.
    pub fn take_batch(&mut self) -> (batch: Vec<FinishedSpan>)
        ensures
            final(self)@ == spec_layer_take_batch(old(self)@).0,
            batch@.map_values(|f: FinishedSpan| f@) == spec_layer_take_batch(old(self)@).1,
    {
        let mut batch: Vec<FinishedSpan> = Vec::new();
        match self {
            Layer::Console(_) => {},
            Layer::Remote(r) => {
                if !r.shut_down {
                    batch.append(&mut r.queue);
                    r.shut_down = true;
                }
            },
        }
        proof {
            assert(batch@.map_values(|f: FinishedSpan| f@) =~~= spec_layer_take_batch(
                old(self)@,
            ).1);
            assert(final(self)@ =~~= spec_layer_take_batch(old(self)@).0);
        }
        batch
    }
}

} // verus!
