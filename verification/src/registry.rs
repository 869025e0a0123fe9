//! The subscriber registry: the single sink coordinator. It owns the
//! span store and the registered layers, and fans every record and
//! span transition out to each layer in registration order.

use vstd::prelude::*;
use crate::data::{
    EventRecord, EventV, ExportError, FieldValue, FinishedSpan, FinishedV, Level, SpanData, SpanV,
    TraceError, ValueV,
};
use crate::layer::{
    spec_layer_on_close, spec_layer_on_enter, spec_layer_on_event, spec_layer_on_exit,
    spec_layer_on_new_span, spec_layer_take_batch, Layer, LayerV, RemoteV,
};
use crate::render::{render_line, spec_line};
use crate::stack::{spec_current, ContextStack};
use vstd::string::StringExecFns;

verus! {

/// Well-formedness of one span store entry at its index.
pub open spec fn span_entry_wf(s: SpanV, i: int, clock: u64) -> bool {
    &&& s.id == i as u64
    &&& match s.parent_id {
        Some(p) => (p as int) < i,
        None => true,
    }
    &&& s.started_at < clock
    &&& match s.ended_at {
        Some(t) => s.started_at < t && t <= clock,
        None => true,
    }
}

/// Well-formedness of the span store: identifiers are the indices, a
/// parent always precedes its children (so the relation is a forest),
/// and every timestamp lies below the clock.
pub open spec fn spans_wf(spans: Seq<SpanV>, clock: u64) -> bool {
    forall|i: int| 0 <= i < spans.len() ==> span_entry_wf(#[trigger] spans[i], i, clock)
}

/// Well-formedness of a finished-span record: it closed after it
/// started, and every attached event falls strictly inside its
/// lifetime — no event of a closed span postdates the closing.
pub open spec fn finished_wf(f: FinishedV, clock: u64) -> bool {
    &&& f.started_at < f.ended_at
    &&& f.ended_at <= clock
    &&& forall|j: int|
        0 <= j < f.events.len() ==> f.started_at < (#[trigger] f.events[j]).timestamp
            < f.ended_at
}

/// Well-formedness of a remote-export layer against the span store:
/// it has seen every span created, a closed span holds no pending
/// events, and every attachment belongs to its span's open lifetime.
pub open spec fn remote_wf(r: RemoteV, spans: Seq<SpanV>, clock: u64) -> bool {
    &&& r.pending.len() == spans.len()
    &&& forall|s: int|
        0 <= s < spans.len() && spans[s].ended_at is Some ==> (#[trigger] r.pending[s]).len()
            == 0
    &&& forall|s: int, j: int|
        0 <= s < spans.len() && 0 <= j < r.pending[s].len() ==> {
            let e = #[trigger] r.pending[s][j];
            &&& e.span_id == Some(s as u64)
            &&& spans[s].started_at < e.timestamp
            &&& e.timestamp < clock
        }
    &&& forall|q: int| 0 <= q < r.queue.len() ==> finished_wf(#[trigger] r.queue[q], clock)
}

/// Well-formedness of one layer against the span store.
pub open spec fn layer_wf(l: LayerV, spans: Seq<SpanV>, clock: u64) -> bool {
    match l {
        LayerV::Console(_) => true,
        LayerV::Remote(r) => remote_wf(r, spans, clock),
    }
}

/// Well-formedness of the registered layers against the span store.
pub open spec fn layers_wf(ls: Seq<LayerV>, spans: Seq<SpanV>, clock: u64) -> bool {
    forall|k: int| 0 <= k < ls.len() ==> layer_wf(#[trigger] ls[k], spans, clock)
}

/// Whether some span of the store is an open child of `id`.
pub open spec fn has_open_child(spans: Seq<SpanV>, id: u64) -> bool {
    exists|j: int|
        0 <= j < spans.len() && (#[trigger] spans[j]).parent_id == Some(id) && spans[j].ended_at
            is None
}

/// Every layer's state after an event is dispatched to all of them.
pub open spec fn spec_dispatch_event(ls: Seq<LayerV>, line: Seq<char>, ev: EventV) -> Seq<
    LayerV,
> {
    ls.map_values(|l: LayerV| spec_layer_on_event(l, line, ev))
}

/// Every layer's state after a new span is dispatched to all of them.
pub open spec fn spec_dispatch_new_span(ls: Seq<LayerV>) -> Seq<LayerV> {
    ls.map_values(|l: LayerV| spec_layer_on_new_span(l))
}

/// Every layer's state after a close is dispatched to all of them.
pub open spec fn spec_dispatch_close(ls: Seq<LayerV>, span: SpanV, ended: u64) -> Seq<LayerV> {
    ls.map_values(|l: LayerV| spec_layer_on_close(l, span, ended))
}

/// An attribute list capped at the configured limit: the first `max`
/// entries are kept, the rest are dropped.
pub open spec fn spec_capped(fs: Seq<(Seq<char>, ValueV)>, max: u64) -> Seq<(Seq<char>, ValueV)> {
    if fs.len() <= max {
        fs
    } else {
        fs.take(max as int)
    }
}

/// The process-wide sink coordinator: the span store, the registered
/// layers, a logical clock for timestamps, and the configured span
/// limits. It performs no I/O itself; each dispatch is a synchronous
/// state change of the layers.
pub struct Registry {
    /// The span store; a span's identifier is its index here.
    pub spans: Vec<SpanData>,
    /// The registered layers, in registration order.
    pub layers: Vec<Layer>,
    /// The logical clock; every timestamp handed out lies below it.
    pub clock: u64,
    /// How many events one span accepts before further ones are dropped.
    pub max_events_per_span: u64,
    /// How many attributes one span keeps; further ones are dropped.
    pub max_attributes_per_span: u64,
}

impl Registry {
    /// The span store, viewed mathematically.
    pub open spec fn spans_v(&self) -> Seq<SpanV> {
        self.spans@.map_values(|s: SpanData| s@)
    }

    /// The layers, viewed mathematically, in registration order.
    pub open spec fn layers_v(&self) -> Seq<LayerV> {
        self.layers@.map_values(|l: Layer| l@)
    }

    /// The registry's invariant.
    pub open spec fn wf(&self) -> bool {
        &&& spans_wf(self.spans_v(), self.clock)
        &&& layers_wf(self.layers_v(), self.spans_v(), self.clock)
    }

    /// A registry with no spans and no layers.
    pub fn new(max_events_per_span: u64, max_attributes_per_span: u64) -> (r: Registry)
        ensures
            r.wf(),
            r.spans_v() == Seq::<SpanV>::empty(),
            r.layers_v() == Seq::<LayerV>::empty(),
            r.clock == 0,
            r.max_events_per_span == max_events_per_span,
            r.max_attributes_per_span == max_attributes_per_span,
    {
        let r = Registry {
            spans: Vec::new(),
            layers: Vec::new(),
            clock: 0,
            max_events_per_span,
            max_attributes_per_span,
        };
        proof {
            assert(r.spans_v() =~= Seq::<SpanV>::empty());
            assert(r.layers_v() =~= Seq::<LayerV>::empty());
        }
        r
    }

    /// Registers a layer. The list is append-only and the dispatch
    /// order is the registration order. A remote layer must join in a
    /// state consistent with the store (in particular, a fresh one
    /// joins before any span exists), so that it never observes an
    /// event for a span it has not seen created.
    pub fn register(&mut self, l: Layer)
        requires
            old(self).wf(),
            layer_wf(l@, old(self).spans_v(), old(self).clock),
        ensures
            final(self).wf(),
            final(self).layers_v() == old(self).layers_v().push(l@),
            final(self).spans_v() == old(self).spans_v(),
            final(self).clock == old(self).clock,
            final(self).max_events_per_span == old(self).max_events_per_span,
            final(self).max_attributes_per_span == old(self).max_attributes_per_span,
    {
        let ghost lv = l@;
        self.layers.push(l);
        proof {
            assert(self.layers_v() =~= old(self).layers_v().push(lv));
            assert forall|k: int| 0 <= k < self.layers_v().len() implies layer_wf(
                #[trigger] self.layers_v()[k],
                self.spans_v(),
                self.clock,
            ) by {
                if k < old(self).layers_v().len() {
                    assert(layer_wf(old(self).layers_v()[k], old(self).spans_v(), old(self).clock));
                }
            }
        }
    }

    /// Creates a new span under the given parent. The new span's
    /// identifier is returned; its attributes are capped at the
    /// configured limit. A parent that does not exist or has already
    /// closed is rejected: a closed span accepts no new children.
    pub fn record_span_create(
        &mut self,
        name: String,
        attributes: Vec<(String, FieldValue)>,
        parent_id: Option<u64>,
    ) -> (r: Result<u64, TraceError>)
        requires
            old(self).wf(),
            old(self).clock < u64::MAX,
            old(self).spans_v().len() < u64::MAX,
        ensures
            final(self).wf(),
            final(self).max_events_per_span == old(self).max_events_per_span,
            final(self).max_attributes_per_span == old(self).max_attributes_per_span,
            r is Ok <==> (parent_id is None || (parent_id->0 < old(self).spans_v().len() && old(
                self,
            ).spans_v()[parent_id->0 as int].ended_at is None)),
            r == Err::<u64, TraceError>(TraceError::UnknownSpan) <==> (parent_id is Some
                && parent_id->0 >= old(self).spans_v().len()),
            r == Err::<u64, TraceError>(TraceError::SpanClosed) <==> (parent_id is Some
                && parent_id->0 < old(self).spans_v().len() && old(self).spans_v()[
                parent_id->0 as int
            ].ended_at is Some),
            r is Err ==> final(self).spans_v() == old(self).spans_v() && final(self).layers_v()
                == old(self).layers_v() && final(self).clock == old(self).clock,
            r is Ok ==> {
                &&& r->Ok_0 == old(self).spans_v().len()
                &&& final(self).spans_v() == old(self).spans_v().push(
                    SpanV {
                        id: old(self).spans_v().len() as u64,
                        name: name@,
                        attributes: spec_capped(
                            crate::data::fields_view(attributes@),
                            old(self).max_attributes_per_span,
                        ),
                        parent_id: parent_id,
                        started_at: old(self).clock,
                        ended_at: None,
                        event_count: 0,
                        open_enters: 0,
                    },
                )
                &&& final(self).layers_v() == spec_dispatch_new_span(old(self).layers_v())
                &&& final(self).clock == old(self).clock + 1
            },
    {
        match parent_id {
            Some(p) => {
                if p >= self.spans.len() as u64 {
                    return Err(TraceError::UnknownSpan);
                }
                if self.spans[p as usize].ended_at.is_some() {
                    return Err(TraceError::SpanClosed);
                }
            },
            None => {},
        }
        let mut attributes = attributes;
        let ghost given_attrs: Seq<(Seq<char>, ValueV)> = crate::data::fields_view(attributes@);
        if attributes.len() as u64 > self.max_attributes_per_span {
            attributes.truncate(self.max_attributes_per_span as usize);
            proof {
                assert(crate::data::fields_view(attributes@) =~= spec_capped(
                    given_attrs,
                    self.max_attributes_per_span,
                ));
            }
        }
        let id = self.spans.len() as u64;
        let started = self.clock;
        self.clock = self.clock + 1;
        let span = SpanData {
            id,
            name,
            attributes,
            parent_id,
            started_at: started,
            ended_at: None,
            event_count: 0,
            open_enters: 0,
        };
        let ghost new_span_v = span@;
        self.spans.push(span);
        let ghost spans1: Seq<SpanV> = self.spans_v();
        proof {
            assert(spans1 =~= old(self).spans_v().push(new_span_v));
        }
        // Fan the creation out to every layer, in registration order.
        let ghost ls0: Seq<LayerV> = self.layers_v();
        let ghost pre_spans: Seq<SpanData> = self.spans@;
        let ghost pre_clock: u64 = self.clock;
        let ghost pre_me: u64 = self.max_events_per_span;
        let ghost pre_ma: u64 = self.max_attributes_per_span;
        let n = self.layers.len();
        let mut k: usize = 0;
        while k < n
            invariant
                k <= n,
                self.layers@.len() == n,
                ls0.len() == n,
                self.spans@ == pre_spans,
                self.clock == pre_clock,
                self.max_events_per_span == pre_me,
                self.max_attributes_per_span == pre_ma,
                forall|j: int|
                    0 <= j < k ==> #[trigger] self.layers_v()[j] == spec_layer_on_new_span(
                        ls0[j],
                    ),
                forall|j: int| k <= j < n ==> #[trigger] self.layers_v()[j] == ls0[j],
            decreases n - k,
        {
            let ghost head: Seq<Layer> = self.layers@;
            let ghost head_v: Seq<LayerV> = self.layers_v();
            let mut l = self.layers.remove(k);
            proof {
                assert(head_v[k as int] == ls0[k as int]);
                assert(l@ == head_v[k as int]);
            }
            l.on_new_span();
            self.layers.insert(k, l);
            proof {
                assert(self.layers@ =~= head.update(k as int, self.layers@[k as int]));
                assert forall|j: int| 0 <= j < n implies #[trigger] self.layers_v()[j] == (if j
                    <= k {
                    spec_layer_on_new_span(ls0[j])
                } else {
                    ls0[j]
                }) by {
                    if j != k {
                        assert(self.layers@[j] == head[j]);
                        assert(self.layers_v()[j] == head_v[j]);
                    }
                }
            }
            k += 1;
        }
        proof {
            assert(self.layers_v() =~= spec_dispatch_new_span(ls0));
            lemma_wf_after_new_span(ls0, old(self).spans_v(), new_span_v, old(self).clock);
        }
        Ok(id)
    }
    /// Records an event against the given span (or no span), assigns
    /// it the current timestamp, and fans it out to every layer in
    /// registration order: the console layers append the rendered
    /// line, the remote layers attach the event to its span. An event
    /// for an unknown or closed span is rejected; once a span has
    /// accepted the configured maximum of events, further ones are
    /// dropped (`Ok(false)`) without any dispatch.
    pub fn record_event(
        &mut self,
        level: Level,
        message: String,
        fields: Vec<(String, FieldValue)>,
        span_id: Option<u64>,
    ) -> (r: Result<bool, TraceError>)
        requires
            old(self).wf(),
            old(self).clock < u64::MAX,
        ensures
            final(self).wf(),
            final(self).max_events_per_span == old(self).max_events_per_span,
            final(self).max_attributes_per_span == old(self).max_attributes_per_span,
            r is Err <==> (span_id is Some && (span_id->0 >= old(self).spans_v().len() || old(
                self,
            ).spans_v()[span_id->0 as int].ended_at is Some)),
            r == Err::<bool, TraceError>(TraceError::UnknownSpan) <==> (span_id is Some
                && span_id->0 >= old(self).spans_v().len()),
            r == Err::<bool, TraceError>(TraceError::SpanClosed) <==> (span_id is Some
                && span_id->0 < old(self).spans_v().len() && old(self).spans_v()[
                span_id->0 as int
            ].ended_at is Some),
            r == Ok::<bool, TraceError>(false) <==> (span_id is Some && span_id->0 < old(
                self,
            ).spans_v().len() && old(self).spans_v()[span_id->0 as int].ended_at is None && old(
                self,
            ).spans_v()[span_id->0 as int].event_count >= old(self).max_events_per_span),
            !(r == Ok::<bool, TraceError>(true)) ==> final(self).spans_v() == old(self).spans_v()
                && final(self).layers_v() == old(self).layers_v() && final(self).clock == old(
                self,
            ).clock,
            r == Ok::<bool, TraceError>(true) ==> {
                let ev = EventV {
                    level: level,
                    message: message@,
                    fields: crate::data::fields_view(fields@),
                    span_id: span_id,
                    timestamp: old(self).clock,
                };
                let name_opt = match span_id {
                    Some(s) => Some(old(self).spans_v()[s as int].name),
                    None => None,
                };
                let line = spec_line(level, name_opt, message@, crate::data::fields_view(fields@));
                &&& final(self).layers_v() == spec_dispatch_event(old(self).layers_v(), line, ev)
                &&& final(self).clock == old(self).clock + 1
                &&& final(self).spans_v() == match span_id {
                    Some(s) => old(self).spans_v().update(
                        s as int,
                        SpanV {
                            event_count: (old(self).spans_v()[s as int].event_count + 1) as u64,
                            ..old(self).spans_v()[s as int]
                        },
                    ),
                    None => old(self).spans_v(),
                }
            },
    {
        let store_len = self.spans.len();
        proof {
            assert(old(self).spans_v().len() == store_len as int);
        }
        // Validate the target span and the per-span event budget.
        match span_id {
            Some(s) => {
                if s >= self.spans.len() as u64 {
                    return Err(TraceError::UnknownSpan);
                }
                let idx = s as usize;
                if self.spans[idx].ended_at.is_some() {
                    return Err(TraceError::SpanClosed);
                }
                if self.spans[idx].event_count >= self.max_events_per_span {
                    return Ok(false);
                }
            },
            None => {},
        }
        // Render the line once; every console layer prints the same one.
        let line = match span_id {
            Some(s) => {
                let name = self.spans[s as usize].name.clone();
                render_line(level, Some(&name), message.as_str(), &fields)
            },
            None => render_line(level, None, message.as_str(), &fields),
        };
        let ts = self.clock;
        self.clock = self.clock + 1;
        // Charge the event against its span's budget.
        match span_id {
            Some(s) => {
                let idx = s as usize;
                let mut sp = self.spans.remove(idx);
                sp.event_count = sp.event_count + 1;
                self.spans.insert(idx, sp);
                proof {
                    assert(self.spans_v() =~= old(self).spans_v().update(
                        s as int,
                        SpanV {
                            event_count: (old(self).spans_v()[s as int].event_count + 1) as u64,
                            ..old(self).spans_v()[s as int]
                        },
                    ));
                }
            },
            None => {},
        }
        let ev = EventRecord { level, message, fields, span_id, timestamp: ts };
        let ghost evv: EventV = ev@;
        let ghost linev: Seq<char> = line@;
        // Fan the event out to every layer, in registration order.
        let ghost ls0: Seq<LayerV> = self.layers_v();
        let ghost pre_spans: Seq<SpanData> = self.spans@;
        let ghost pre_clock: u64 = self.clock;
        let ghost pre_me: u64 = self.max_events_per_span;
        let ghost pre_ma: u64 = self.max_attributes_per_span;
        let n = self.layers.len();
        let mut k: usize = 0;
        while k < n
            invariant
                k <= n,
                self.layers@.len() == n,
                ls0.len() == n,
                self.spans@ == pre_spans,
                self.clock == pre_clock,
                self.max_events_per_span == pre_me,
                self.max_attributes_per_span == pre_ma,
                linev == line@,
                evv == ev@,
                forall|j: int|
                    0 <= j < k ==> #[trigger] self.layers_v()[j] == spec_layer_on_event(
                        ls0[j],
                        linev,
                        evv,
                    ),
                forall|j: int| k <= j < n ==> #[trigger] self.layers_v()[j] == ls0[j],
            decreases n - k,
        {
            let ghost head: Seq<Layer> = self.layers@;
            let ghost head_v: Seq<LayerV> = self.layers_v();
            let mut l = self.layers.remove(k);
            proof {
                assert(head_v[k as int] == ls0[k as int]);
                assert(l@ == head_v[k as int]);
            }
            l.on_event(line.as_str(), &ev);
            self.layers.insert(k, l);
            proof {
                assert(self.layers@ =~= head.update(k as int, self.layers@[k as int]));
                assert forall|j: int| 0 <= j < n implies #[trigger] self.layers_v()[j] == (if j
                    <= k {
                    spec_layer_on_event(ls0[j], linev, evv)
                } else {
                    ls0[j]
                }) by {
                    if j != k {
                        assert(self.layers@[j] == head[j]);
                        assert(self.layers_v()[j] == head_v[j]);
                    }
                }
            }
            k += 1;
        }
        proof {
            assert(self.layers_v() =~= spec_dispatch_event(ls0, linev, evv));
            lemma_wf_after_event(ls0, old(self).spans_v(), linev, evv, old(self).clock);
            assert(self.spans_v() =~= match span_id {
                Some(s) => old(self).spans_v().update(
                    s as int,
                    SpanV {
                        event_count: (old(self).spans_v()[s as int].event_count + 1) as u64,
                        ..old(self).spans_v()[s as int]
                    },
                ),
                None => old(self).spans_v(),
            });
            assert(spans_like(self.spans_v(), old(self).spans_v()));
        }
        Ok(true)
    }

    /// Reports that the span was entered somewhere, and fans the
    /// transition out to every layer in registration order (both
    /// reference layer variants ignore it). A span that does not
    /// exist or has closed accepts no entry.
    pub fn record_enter(&mut self, span_id: u64) -> (r: Result<(), TraceError>)
        requires
            old(self).wf(),
            span_id < old(self).spans_v().len() ==> old(self).spans_v()[span_id as int].open_enters
                < u64::MAX,
        ensures
            final(self).wf(),
            final(self).max_events_per_span == old(self).max_events_per_span,
            final(self).max_attributes_per_span == old(self).max_attributes_per_span,
            final(self).layers_v() == old(self).layers_v(),
            final(self).clock == old(self).clock,
            r is Ok <==> (span_id < old(self).spans_v().len() && old(self).spans_v()[
                span_id as int
            ].ended_at is None),
            r == Err::<(), TraceError>(TraceError::UnknownSpan) <==> span_id >= old(
                self,
            ).spans_v().len(),
            r == Err::<(), TraceError>(TraceError::SpanClosed) <==> (span_id < old(
                self,
            ).spans_v().len() && old(self).spans_v()[span_id as int].ended_at is Some),
            r is Err ==> final(self).spans_v() == old(self).spans_v(),
            r is Ok ==> final(self).spans_v() == old(self).spans_v().update(
                span_id as int,
                SpanV {
                    open_enters: (old(self).spans_v()[span_id as int].open_enters + 1) as u64,
                    ..old(self).spans_v()[span_id as int]
                },
            ),
    {
        if span_id >= self.spans.len() as u64 {
            return Err(TraceError::UnknownSpan);
        }
        let idx = span_id as usize;
        if self.spans[idx].ended_at.is_some() {
            return Err(TraceError::SpanClosed);
        }
        let mut sp = self.spans.remove(idx);
        sp.open_enters = sp.open_enters + 1;
        self.spans.insert(idx, sp);
        proof {
            assert(self.spans_v() =~= old(self).spans_v().update(
                span_id as int,
                SpanV {
                    open_enters: (old(self).spans_v()[span_id as int].open_enters + 1) as u64,
                    ..old(self).spans_v()[span_id as int]
                },
            ));
            assert forall|i: int| 0 <= i < self.spans_v().len() implies span_entry_wf(
                #[trigger] self.spans_v()[i],
                i,
                self.clock,
            ) by {
                assert(span_entry_wf(old(self).spans_v()[i], i, old(self).clock));
            }
            assert(spans_like(self.spans_v(), old(self).spans_v()));
            lemma_layers_wf_spans_like(
                self.layers_v(),
                old(self).spans_v(),
                self.spans_v(),
                self.clock,
            );
        }
        // Fan the transition out to every layer, in registration order.
        let ghost ls0: Seq<LayerV> = self.layers_v();
        let ghost post_spans: Seq<SpanData> = self.spans@;
        let n = self.layers.len();
        let mut k: usize = 0;
        while k < n
            invariant
                k <= n,
                self.layers@.len() == n,
                ls0 == old(self).layers_v(),
                ls0.len() == n,
                self.spans@ == post_spans,
                self.clock == old(self).clock,
                self.max_events_per_span == old(self).max_events_per_span,
                self.max_attributes_per_span == old(self).max_attributes_per_span,
                forall|j: int|
                    0 <= j < k ==> #[trigger] self.layers_v()[j] == spec_layer_on_enter(
                        ls0[j],
                        span_id,
                    ),
                forall|j: int| k <= j < n ==> #[trigger] self.layers_v()[j] == ls0[j],
            decreases n - k,
        {
            let ghost head: Seq<Layer> = self.layers@;
            let ghost head_v: Seq<LayerV> = self.layers_v();
            let mut l = self.layers.remove(k);
            l.on_enter(span_id);
            self.layers.insert(k, l);
            proof {
                assert(self.layers@ =~= head.update(k as int, self.layers@[k as int]));
                assert forall|j: int| 0 <= j < n implies #[trigger] self.layers_v()[j] == (if j
                    <= k {
                    spec_layer_on_enter(ls0[j], span_id)
                } else {
                    ls0[j]
                }) by {
                    if j != k {
                        assert(self.layers@[j] == head[j]);
                        assert(self.layers_v()[j] == head_v[j]);
                    } else {
                        assert(l@ == head_v[k as int]);
                    }
                }
            }
            k += 1;
        }
        proof {
            assert(self.layers_v() =~= old(self).layers_v());
        }
        Ok(())
    }

    /// Reports that one entry of the span was exited, and fans the
    /// transition out to every layer in registration order (both
    /// reference layer variants ignore it). An exit with no matching
    /// entry is a discipline fault.
    pub fn record_exit(&mut self, span_id: u64) -> (r: Result<(), TraceError>)
        requires
            old(self).wf(),
        ensures
            final(self).wf(),
            final(self).max_events_per_span == old(self).max_events_per_span,
            final(self).max_attributes_per_span == old(self).max_attributes_per_span,
            final(self).layers_v() == old(self).layers_v(),
            final(self).clock == old(self).clock,
            r is Ok <==> (span_id < old(self).spans_v().len() && old(self).spans_v()[
                span_id as int
            ].open_enters > 0),
            r == Err::<(), TraceError>(TraceError::UnknownSpan) <==> span_id >= old(
                self,
            ).spans_v().len(),
            r == Err::<(), TraceError>(TraceError::NotLifo) <==> (span_id < old(
                self,
            ).spans_v().len() && old(self).spans_v()[span_id as int].open_enters == 0),
            r is Err ==> final(self).spans_v() == old(self).spans_v(),
            r is Ok ==> final(self).spans_v() == old(self).spans_v().update(
                span_id as int,
                SpanV {
                    open_enters: (old(self).spans_v()[span_id as int].open_enters - 1) as u64,
                    ..old(self).spans_v()[span_id as int]
                },
            ),
    {
        if span_id >= self.spans.len() as u64 {
            return Err(TraceError::UnknownSpan);
        }
        let idx = span_id as usize;
        if self.spans[idx].open_enters == 0 {
            return Err(TraceError::NotLifo);
        }
        let mut sp = self.spans.remove(idx);
        sp.open_enters = sp.open_enters - 1;
        self.spans.insert(idx, sp);
        proof {
            assert(self.spans_v() =~= old(self).spans_v().update(
                span_id as int,
                SpanV {
                    open_enters: (old(self).spans_v()[span_id as int].open_enters - 1) as u64,
                    ..old(self).spans_v()[span_id as int]
                },
            ));
            assert forall|i: int| 0 <= i < self.spans_v().len() implies span_entry_wf(
                #[trigger] self.spans_v()[i],
                i,
                self.clock,
            ) by {
                assert(span_entry_wf(old(self).spans_v()[i], i, old(self).clock));
            }
            assert(spans_like(self.spans_v(), old(self).spans_v()));
            lemma_layers_wf_spans_like(
                self.layers_v(),
                old(self).spans_v(),
                self.spans_v(),
                self.clock,
            );
        }
        // Fan the transition out to every layer, in registration order.
        let ghost ls0: Seq<LayerV> = self.layers_v();
        let ghost post_spans: Seq<SpanData> = self.spans@;
        let n = self.layers.len();
        let mut k: usize = 0;
        while k < n
            invariant
                k <= n,
                self.layers@.len() == n,
                ls0 == old(self).layers_v(),
                ls0.len() == n,
                self.spans@ == post_spans,
                self.clock == old(self).clock,
                self.max_events_per_span == old(self).max_events_per_span,
                self.max_attributes_per_span == old(self).max_attributes_per_span,
                forall|j: int|
                    0 <= j < k ==> #[trigger] self.layers_v()[j] == spec_layer_on_exit(
                        ls0[j],
                        span_id,
                    ),
                forall|j: int| k <= j < n ==> #[trigger] self.layers_v()[j] == ls0[j],
            decreases n - k,
        {
            let ghost head: Seq<Layer> = self.layers@;
            let ghost head_v: Seq<LayerV> = self.layers_v();
            let mut l = self.layers.remove(k);
            l.on_exit(span_id);
            self.layers.insert(k, l);
            proof {
                assert(self.layers@ =~= head.update(k as int, self.layers@[k as int]));
                assert forall|j: int| 0 <= j < n implies #[trigger] self.layers_v()[j] == (if j
                    <= k {
                    spec_layer_on_exit(ls0[j], span_id)
                } else {
                    ls0[j]
                }) by {
                    if j != k {
                        assert(self.layers@[j] == head[j]);
                        assert(self.layers_v()[j] == head_v[j]);
                    } else {
                        assert(l@ == head_v[k as int]);
                    }
                }
            }
            k += 1;
        }
        proof {
            assert(self.layers_v() =~= old(self).layers_v());
        }
        Ok(())
    }

    /// Closes a span: records its end time and fans the closing out to
    /// every layer, so the remote layers assemble its finished-span
    /// record. Closing is rejected while the span is still entered or
    /// still has open children — a span never closes before the
    /// activity inside it is over, so no event of a closed span can
    /// postdate the closing.
    pub fn record_close(&mut self, span_id: u64) -> (r: Result<(), TraceError>)
        requires
            old(self).wf(),
            old(self).clock < u64::MAX,
        ensures
            final(self).wf(),
            final(self).max_events_per_span == old(self).max_events_per_span,
            final(self).max_attributes_per_span == old(self).max_attributes_per_span,
            r is Ok <==> (span_id < old(self).spans_v().len() && old(self).spans_v()[
                span_id as int
            ].ended_at is None && old(self).spans_v()[span_id as int].open_enters == 0
                && !has_open_child(old(self).spans_v(), span_id)),
            r == Err::<(), TraceError>(TraceError::UnknownSpan) <==> span_id >= old(
                self,
            ).spans_v().len(),
            r == Err::<(), TraceError>(TraceError::SpanClosed) <==> (span_id < old(
                self,
            ).spans_v().len() && old(self).spans_v()[span_id as int].ended_at is Some),
            r == Err::<(), TraceError>(TraceError::StillEntered) <==> (span_id < old(
                self,
            ).spans_v().len() && old(self).spans_v()[span_id as int].ended_at is None && old(
                self,
            ).spans_v()[span_id as int].open_enters > 0),
            r == Err::<(), TraceError>(TraceError::OpenChildren) <==> (span_id < old(
                self,
            ).spans_v().len() && old(self).spans_v()[span_id as int].ended_at is None && old(
                self,
            ).spans_v()[span_id as int].open_enters == 0 && has_open_child(
                old(self).spans_v(),
                span_id,
            )),
            r is Err ==> final(self).spans_v() == old(self).spans_v() && final(self).layers_v()
                == old(self).layers_v() && final(self).clock == old(self).clock,
            r is Ok ==> {
                &&& final(self).spans_v() == old(self).spans_v().update(
                    span_id as int,
                    SpanV { ended_at: Some(old(self).clock), ..old(self).spans_v()[span_id as int] },
                )
                &&& final(self).layers_v() == spec_dispatch_close(
                    old(self).layers_v(),
                    old(self).spans_v()[span_id as int],
                    old(self).clock,
                )
                &&& final(self).clock == old(self).clock + 1
            },
    {
        if span_id >= self.spans.len() as u64 {
            return Err(TraceError::UnknownSpan);
        }
        let idx = span_id as usize;
        if self.spans[idx].ended_at.is_some() {
            return Err(TraceError::SpanClosed);
        }
        if self.spans[idx].open_enters > 0 {
            return Err(TraceError::StillEntered);
        }
        // Policy: a span with open children does not close; children
        // close first.
        let mut j: usize = 0;
        while j < self.spans.len()
            invariant
                j <= self.spans@.len(),
                *self == *old(self),
                old(self).wf(),
                old(self).clock < u64::MAX,
                span_id < old(self).spans_v().len(),
                old(self).spans_v()[span_id as int].ended_at is None,
                old(self).spans_v()[span_id as int].open_enters == 0,
                forall|i: int|
                    0 <= i < j ==> !((#[trigger] self.spans_v()[i]).parent_id == Some(span_id)
                        && self.spans_v()[i].ended_at is None),
            decreases self.spans@.len() - j,
        {
            if self.spans[j].parent_id.is_some() && self.spans[j].parent_id.unwrap() == span_id
                && self.spans[j].ended_at.is_none() {
                proof {
                    assert(self.spans_v()[j as int].parent_id == Some(span_id));
                    assert(self.spans_v()[j as int].ended_at is None);
                    assert(has_open_child(self.spans_v(), span_id));
                }
                return Err(TraceError::OpenChildren);
            }
            j += 1;
        }
        proof {
            assert(!has_open_child(old(self).spans_v(), span_id));
        }
        let ended = self.clock;
        self.clock = self.clock + 1;
        let closing = self.spans[idx].duplicate();
        // Fan the closing out to every layer, in registration order.
        let ghost ls0: Seq<LayerV> = self.layers_v();
        let ghost closing_v: SpanV = closing@;
        proof {
            assert(ls0 == old(self).layers_v());
            assert(closing_v == old(self).spans_v()[span_id as int]);
        }
        let n = self.layers.len();
        let mut k: usize = 0;
        while k < n
            invariant
                k <= n,
                self.layers@.len() == n,
                ls0 == old(self).layers_v(),
                ls0.len() == n,
                self.spans@ == old(self).spans@,
                self.clock == old(self).clock + 1,
                self.max_events_per_span == old(self).max_events_per_span,
                self.max_attributes_per_span == old(self).max_attributes_per_span,
                closing_v == closing@,
                closing_v == old(self).spans_v()[span_id as int],
                ended == old(self).clock,
                old(self).wf(),
                old(self).clock < u64::MAX,
                span_id < old(self).spans_v().len(),
                old(self).spans_v()[span_id as int].ended_at is None,
                forall|j2: int|
                    0 <= j2 < k ==> #[trigger] self.layers_v()[j2] == spec_layer_on_close(
                        ls0[j2],
                        closing_v,
                        ended,
                    ),
                forall|j2: int| k <= j2 < n ==> #[trigger] self.layers_v()[j2] == ls0[j2],
            decreases n - k,
        {
            let ghost head: Seq<Layer> = self.layers@;
            let ghost head_v: Seq<LayerV> = self.layers_v();
            let mut l = self.layers.remove(k);
            proof {
                assert(head_v[k as int] == ls0[k as int]);
                assert(l@ == head_v[k as int]);
            }
            l.on_close(&closing, ended);
            self.layers.insert(k, l);
            proof {
                assert(self.layers@ =~= head.update(k as int, self.layers@[k as int]));
                assert forall|j2: int| 0 <= j2 < n implies #[trigger] self.layers_v()[j2] == (if j2
                    <= k {
                    spec_layer_on_close(ls0[j2], closing_v, ended)
                } else {
                    ls0[j2]
                }) by {
                    if j2 != k {
                        assert(self.layers@[j2] == head[j2]);
                        assert(self.layers_v()[j2] == head_v[j2]);
                    }
                }
            }
            k += 1;
        }
        let ghost ls_done: Seq<LayerV> = self.layers_v();
        proof {
            assert(ls_done =~= spec_dispatch_close(ls0, closing_v, ended));
        }
        // Record the end time in the store.
        let idx2 = span_id as usize;
        let mut sp = self.spans.remove(idx2);
        sp.ended_at = Some(ended);
        self.spans.insert(idx2, sp);
        proof {
            assert(self.layers_v() == ls_done);
            assert(self.layers_v() == spec_dispatch_close(ls0, closing_v, ended));
            assert(self.spans_v() =~= old(self).spans_v().update(
                span_id as int,
                SpanV { ended_at: Some(old(self).clock), ..old(self).spans_v()[span_id as int] },
            ));
            lemma_wf_after_close(
                ls0,
                old(self).spans_v(),
                self.spans_v(),
                span_id,
                old(self).clock,
            );
        }
        Ok(())
    }

    /// The instrumented-call pattern, done whole for the caller: a
    /// span named after the instrumented function, carrying its
    /// arguments as attributes, is created under the caller's current
    /// span, entered for exactly the duration of the call, given one
    /// event, then exited and closed before returning. The context
    /// stack is left exactly as it was. The new span's identifier is
    /// returned; a stale or closed current span is rejected and
    /// nothing changes.
    pub fn record_scoped_event(
        &mut self,
        stack: &mut ContextStack,
        name: String,
        attributes: Vec<(String, FieldValue)>,
        level: Level,
        message: String,
        fields: Vec<(String, FieldValue)>,
    ) -> (r: Result<u64, TraceError>)
        requires
            old(self).wf(),
            old(self).clock + 2 < u64::MAX,
            old(self).spans_v().len() < u64::MAX,
        ensures
            final(self).wf(),
            final(self).max_events_per_span == old(self).max_events_per_span,
            final(self).max_attributes_per_span == old(self).max_attributes_per_span,
            r is Ok <==> (spec_current(old(stack)@) is None || (spec_current(old(stack)@)->0
                < old(self).spans_v().len() && old(self).spans_v()[
                spec_current(old(stack)@)->0 as int
            ].ended_at is None)),
            r == Err::<u64, TraceError>(TraceError::UnknownSpan) <==> (spec_current(old(stack)@)
                is Some && spec_current(old(stack)@)->0 >= old(self).spans_v().len()),
            r == Err::<u64, TraceError>(TraceError::SpanClosed) <==> (spec_current(old(stack)@)
                is Some && spec_current(old(stack)@)->0 < old(self).spans_v().len() && old(
                self,
            ).spans_v()[spec_current(old(stack)@)->0 as int].ended_at is Some),
            r is Err ==> final(self).spans_v() == old(self).spans_v() && final(self).layers_v()
                == old(self).layers_v() && final(self).clock == old(self).clock && final(stack)@
                == old(stack)@,
            r is Ok ==> {
                let parent = spec_current(old(stack)@);
                let sid = old(self).spans_v().len() as u64;
                let attrs = spec_capped(
                    crate::data::fields_view(attributes@),
                    old(self).max_attributes_per_span,
                );
                let recorded = old(self).max_events_per_span > 0;
                let end_ts = if recorded {
                    (old(self).clock + 2) as u64
                } else {
                    (old(self).clock + 1) as u64
                };
                let ev = EventV {
                    level: level,
                    message: message@,
                    fields: crate::data::fields_view(fields@),
                    span_id: Some(sid),
                    timestamp: (old(self).clock + 1) as u64,
                };
                let line = spec_line(
                    level,
                    Some(name@),
                    message@,
                    crate::data::fields_view(fields@),
                );
                let at_close = SpanV {
                    id: sid,
                    name: name@,
                    attributes: attrs,
                    parent_id: parent,
                    started_at: old(self).clock,
                    ended_at: None,
                    event_count: if recorded {
                        1u64
                    } else {
                        0u64
                    },
                    open_enters: 0,
                };
                let after_create = spec_dispatch_new_span(old(self).layers_v());
                let after_event = if recorded {
                    spec_dispatch_event(after_create, line, ev)
                } else {
                    after_create
                };
                &&& r->Ok_0 == sid
                &&& final(stack)@ == old(stack)@
                &&& final(self).clock == end_ts + 1
                &&& final(self).spans_v() == old(self).spans_v().push(
                    SpanV { ended_at: Some(end_ts), ..at_close },
                )
                &&& final(self).layers_v() == spec_dispatch_close(after_event, at_close, end_ts)
            },
    {
        let parent = stack.current();
        let sid = match self.record_span_create(name, attributes, parent) {
            Ok(id) => id,
            Err(e) => {
                return Err(e);
            },
        };
        let ghost spans1: Seq<SpanV> = self.spans_v();
        proof {
            assert(spans1[sid as int] == spans1.last());
        }
        stack.enter(sid);
        let enter_r = self.record_enter(sid);
        proof {
            assert(enter_r is Ok);
        }
        let ev_r = self.record_event(level, message, fields, Some(sid));
        proof {
            assert(ev_r is Ok);
            assert(ev_r->Ok_0 == (old(self).max_events_per_span > 0));
        }
        let exit_r = self.record_exit(sid);
        proof {
            assert(exit_r is Ok);
        }
        let stack_r = stack.exit(sid);
        proof {
            assert(stack_r is Ok);
            assert(final(stack)@ =~= old(stack)@);
        }
        // The new span is the youngest of the store, so it has no
        // children at all, let alone open ones.
        proof {
            let spans4 = self.spans_v();
            assert forall|j: int|
                0 <= j < spans4.len() implies !((#[trigger] spans4[j]).parent_id == Some(sid)
                && spans4[j].ended_at is None) by {
                assert(span_entry_wf(spans4[j], j, self.clock));
            }
            assert(!has_open_child(self.spans_v(), sid));
        }
        let close_r = self.record_close(sid);
        proof {
            assert(close_r is Ok);
            assert(final(self).spans_v() =~= old(self).spans_v().push(
                SpanV {
                    ended_at: Some((final(self).clock - 1) as u64),
                    id: sid,
                    name: spans1.last().name,
                    attributes: spans1.last().attributes,
                    parent_id: spec_current(old(stack)@),
                    started_at: old(self).clock,
                    event_count: if old(self).max_events_per_span > 0 {
                        1u64
                    } else {
                        0u64
                    },
                    open_enters: 0,
                },
            ));
        }
        Ok(sid)
    }

    /// The first half of `flush_and_shutdown`: takes every layer's
    /// pending export batch, in registration order, and marks the
    /// remote layers shut down. A second call yields an empty batch
    /// and changes nothing, so the flush is idempotent. The host
    /// program hands the batch to the trace exporter and reports the
    /// outcome back through `report_export_outcome`.
    pub fn take_export_batch(&mut self) -> (batch: Vec<FinishedSpan>)
        requires
            old(self).wf(),
        ensures
            final(self).wf(),
            final(self).max_events_per_span == old(self).max_events_per_span,
            final(self).max_attributes_per_span == old(self).max_attributes_per_span,
            final(self).spans_v() == old(self).spans_v(),
            final(self).clock == old(self).clock,
            final(self).layers_v() == spec_take_layers(old(self).layers_v()),
            batch@.map_values(|f: FinishedSpan| f@) == spec_batches_of(old(self).layers_v()),
    {
        let mut batch: Vec<FinishedSpan> = Vec::new();
        let ghost ls0: Seq<LayerV> = self.layers_v();
        let n = self.layers.len();
        let mut k: usize = 0;
        proof {
            assert(batch@.map_values(|f: FinishedSpan| f@) =~= spec_batches_of(ls0.take(0)));
        }
        while k < n
            invariant
                k <= n,
                self.layers@.len() == n,
                ls0 == old(self).layers_v(),
                ls0.len() == n,
                self.spans@ == old(self).spans@,
                self.clock == old(self).clock,
                self.max_events_per_span == old(self).max_events_per_span,
                self.max_attributes_per_span == old(self).max_attributes_per_span,
                old(self).wf(),
                batch@.map_values(|f: FinishedSpan| f@) == spec_batches_of(ls0.take(k as int)),
                forall|j: int|
                    0 <= j < k ==> #[trigger] self.layers_v()[j] == spec_layer_take_batch(
                        ls0[j],
                    ).0,
                forall|j: int| k <= j < n ==> #[trigger] self.layers_v()[j] == ls0[j],
            decreases n - k,
        {
            let ghost head: Seq<Layer> = self.layers@;
            let ghost head_v: Seq<LayerV> = self.layers_v();
            let ghost batch_pre: Seq<FinishedV> = batch@.map_values(|f: FinishedSpan| f@);
            let mut l = self.layers.remove(k);
            proof {
                assert(head_v[k as int] == ls0[k as int]);
                assert(l@ == head_v[k as int]);
            }
            let mut piece = l.take_batch();
            self.layers.insert(k, l);
            batch.append(&mut piece);
            proof {
                assert(self.layers@ =~= head.update(k as int, self.layers@[k as int]));
                assert forall|j: int| 0 <= j < n implies #[trigger] self.layers_v()[j] == (if j
                    <= k {
                    spec_layer_take_batch(ls0[j]).0
                } else {
                    ls0[j]
                }) by {
                    if j != k {
                        assert(self.layers@[j] == head[j]);
                        assert(self.layers_v()[j] == head_v[j]);
                    }
                }
                let cur = ls0.take(k + 1int);
                assert(cur.drop_last() =~= ls0.take(k as int));
                assert(cur.last() == ls0[k as int]);
                assert(batch@.map_values(|f: FinishedSpan| f@) =~= batch_pre
                    + spec_layer_take_batch(ls0[k as int]).1);
                assert(batch@.map_values(|f: FinishedSpan| f@) == spec_batches_of(cur));
            }
            k += 1;
        }
        proof {
            assert(ls0.take(n as int) =~= ls0);
            assert(self.layers_v() =~= spec_take_layers(ls0));
            assert forall|k2: int| 0 <= k2 < self.layers_v().len() implies layer_wf(
                #[trigger] self.layers_v()[k2],
                self.spans_v(),
                self.clock,
            ) by {
                assert(layer_wf(ls0[k2], old(self).spans_v(), old(self).clock));
                assert(self.spans_v() =~= old(self).spans_v());
            }
        }
        batch
    }

    /// Reports the trace exporter's outcome for the final flush. A
    /// success changes nothing. A failure is tolerated, never fatal:
    /// it is logged locally through the console layers as a warning
    /// event, and the remote layers are left untouched — the console
    /// output already rendered for recorded events stays exactly as it
    /// was.
    pub fn report_export_outcome(&mut self, outcome: Result<(), ExportError>)
        requires
            old(self).wf(),
            old(self).clock < u64::MAX,
        ensures
            final(self).wf(),
            final(self).max_events_per_span == old(self).max_events_per_span,
            final(self).max_attributes_per_span == old(self).max_attributes_per_span,
            final(self).spans_v() == old(self).spans_v(),
            outcome is Ok ==> final(self).layers_v() == old(self).layers_v() && final(self).clock
                == old(self).clock,
            outcome is Err ==> {
                let msg = spec_outcome_message(outcome->Err_0);
                let ev = EventV {
                    level: Level::Warn,
                    message: msg,
                    fields: Seq::empty(),
                    span_id: None,
                    timestamp: old(self).clock,
                };
                let line = spec_line(Level::Warn, None, msg, Seq::empty());
                &&& final(self).layers_v() == spec_dispatch_event(old(self).layers_v(), line, ev)
                &&& final(self).clock == old(self).clock + 1
            },
    {
        match outcome {
            Ok(_) => {},
            Err(e) => {
                let message = outcome_message(e);
                let r = self.record_event(Level::Warn, message, Vec::new(), None);
                proof {
                    assert(r->Ok_0 == true);
                    assert(r == Ok::<bool, TraceError>(true));
                    assert(crate::data::fields_view(Seq::<(String, FieldValue)>::empty())
                        =~= Seq::<(Seq<char>, ValueV)>::empty());
                }
            },
        }
    }
}

/// The text logged locally when the trace exporter reports a fault.
pub open spec fn spec_outcome_message(e: ExportError) -> Seq<char> {
    match e {
        ExportError::Transient => "trace export failed"@,
        ExportError::ShutdownTimeout => "trace export flush timed out"@,
    }
}

/// The text logged locally when the trace exporter reports a fault.
pub fn outcome_message(e: ExportError) -> (r: String)
    ensures
        r@ == spec_outcome_message(e),
{
    match e {
        ExportError::Transient => String::from_str("trace export failed"),
        ExportError::ShutdownTimeout => String::from_str("trace export flush timed out"),
    }
}

/// Every layer's state after the final flush takes the batches.
pub open spec fn spec_take_layers(ls: Seq<LayerV>) -> Seq<LayerV> {
    ls.map_values(|l: LayerV| spec_layer_take_batch(l).0)
}

/// The whole export batch of the final flush: every layer's batch, in
/// registration order.
pub open spec fn spec_batches_of(ls: Seq<LayerV>) -> Seq<FinishedV>
    decreases ls.len(),
{
    if ls.len() == 0 {
        Seq::empty()
    } else {
        spec_batches_of(ls.drop_last()) + spec_layer_take_batch(ls.last()).1
    }
}

/// The final flush is idempotent over the whole registry: flushing the
/// layers a second time yields an empty batch and leaves every layer
/// exactly as the first flush left it — no duplicate export, no fault.
pub proof fn lemma_flush_idempotent(ls: Seq<LayerV>)
    ensures
        spec_take_layers(spec_take_layers(ls)) == spec_take_layers(ls),
        spec_batches_of(spec_take_layers(ls)) == Seq::<FinishedV>::empty(),
    decreases ls.len(),
{
    let ls1 = spec_take_layers(ls);
    assert forall|k: int| 0 <= k < ls1.len() implies #[trigger] spec_take_layers(ls1)[k]
        == ls1[k] by {
        crate::layer::lemma_take_batch_idempotent(ls[k]);
    }
    assert(spec_take_layers(ls1) =~= ls1);
    if ls.len() == 0 {
        assert(spec_batches_of(ls1) =~= Seq::<FinishedV>::empty());
    } else {
        lemma_flush_idempotent(ls.drop_last());
        assert(ls1.drop_last() =~= spec_take_layers(ls.drop_last()));
        crate::layer::lemma_take_batch_idempotent(ls.last());
        assert(spec_batches_of(ls1) == spec_batches_of(ls1.drop_last())
            + spec_layer_take_batch(ls1.last()).1);
        assert(spec_batches_of(ls1) =~= Seq::<FinishedV>::empty());
    }
}

/// Sink isolation: dispatching an event treats every console layer the
/// same, whatever the state of the remote layers or the outcome of any
/// export. Two layer lists whose console layers agree position by
/// position still agree on every console layer after the dispatch.
pub proof fn lemma_sink_isolation(ls1: Seq<LayerV>, ls2: Seq<LayerV>, line: Seq<char>, ev: EventV)
    requires
        ls1.len() == ls2.len(),
        forall|k: int| 0 <= k < ls1.len() ==> ((#[trigger] ls1[k]) is Console <==> ls2[k] is Console),
        forall|k: int| 0 <= k < ls1.len() ==> ((#[trigger] ls1[k]) is Console ==> ls1[k] == ls2[k]),
    ensures
        forall|k: int|
            0 <= k < ls1.len() ==> ((#[trigger] spec_dispatch_event(ls1, line, ev)[k]) is Console
                <==> spec_dispatch_event(ls2, line, ev)[k] is Console),
        forall|k: int|
            0 <= k < ls1.len() ==> ((#[trigger] spec_dispatch_event(ls1, line, ev)[k]) is Console
                ==> spec_dispatch_event(ls1, line, ev)[k] == spec_dispatch_event(ls2, line, ev)[k]),
{
    let d1 = spec_dispatch_event(ls1, line, ev);
    let d2 = spec_dispatch_event(ls2, line, ev);
    assert forall|k: int| 0 <= k < ls1.len() implies ((#[trigger] d1[k]) is Console <==> d2[k]
        is Console) && (d1[k] is Console ==> d1[k] == d2[k]) by {
        assert(ls1[k] is Console <==> ls2[k] is Console);
        assert(ls1[k] is Console ==> ls1[k] == ls2[k]);
    }
}

/// Spawned-task attribution: a task spawned with the span reference
/// captured from its parent stack restores that span as its own active
/// one, independent of the parent task's continued lifetime, so an
/// event it records is attributed to the captured span; and the
/// console line rendered for such an event carries that span's name,
/// whatever the interleaving — the line depends only on the event and
/// the span's name.
pub proof fn lemma_spawn_attribution(
    parent: Seq<u64>,
    p: u64,
    level: Level,
    name: Seq<char>,
    message: Seq<char>,
    fields: Seq<(Seq<char>, ValueV)>,
)
    requires
        crate::stack::spec_current(parent) == Some(p),
    ensures
        crate::stack::spec_current(crate::stack::spec_for_task(crate::stack::spec_current(parent)))
            == Some(p),
        ({
            let line = spec_line(level, Some(name), message, fields);
            let name_start = 3 + crate::render::spec_level_text(level).len();
            line.subrange(name_start as int, name_start + name.len() as int) == name
        }),
{
    crate::render::lemma_line_contains_span_and_message(level, name, message, fields);
}

/// No rendered or exported event ever postdates its span's closing: in
/// a well-formed registry, every finished-span record queued by any
/// remote layer holds only events from strictly inside the span's
/// lifetime, and a span still open holds no event from after the
/// clock.
pub proof fn lemma_no_late_events(ls: Seq<LayerV>, spans: Seq<SpanV>, clock: u64)
    requires
        layers_wf(ls, spans, clock),
    ensures
        forall|k: int, q: int|
            0 <= k < ls.len() && ls[k] is Remote && 0 <= q < ls[k]->Remote_0.queue.len() ==> {
                let f = (#[trigger] ls[k]->Remote_0.queue[q]);
                forall|j: int|
                    0 <= j < f.events.len() ==> f.started_at < (#[trigger] f.events[j]).timestamp
                        < f.ended_at
            },
{
    assert forall|k: int, q: int|
        0 <= k < ls.len() && ls[k] is Remote && 0 <= q < ls[k]->Remote_0.queue.len() implies {
        let f = (#[trigger] ls[k]->Remote_0.queue[q]);
        forall|j: int|
            0 <= j < f.events.len() ==> f.started_at < (#[trigger] f.events[j]).timestamp
                < f.ended_at
    } by {
        assert(layer_wf(ls[k], spans, clock));
        assert(finished_wf(ls[k]->Remote_0.queue[q], clock));
    }
}

/// Layer well-formedness depends only on the shape of the span store,
/// so it survives any change that keeps the shape.
proof fn lemma_layers_wf_spans_like(
    ls: Seq<LayerV>,
    spans: Seq<SpanV>,
    spans1: Seq<SpanV>,
    clock: u64,
)
    requires
        layers_wf(ls, spans, clock),
        spans_like(spans1, spans),
    ensures
        layers_wf(ls, spans1, clock),
{
    assert forall|k: int| 0 <= k < ls.len() implies layer_wf(#[trigger] ls[k], spans1, clock) by {
        assert(layer_wf(ls[k], spans, clock));
        match ls[k] {
            LayerV::Console(_) => {},
            LayerV::Remote(r) => {
                assert forall|s: int|
                    0 <= s < spans1.len() && spans1[s].ended_at is Some implies (
                #[trigger] r.pending[s]).len() == 0 by {
                    assert(spans[s].ended_at == spans1[s].ended_at);
                }
                assert forall|s: int, j: int|
                    0 <= s < spans1.len() && 0 <= j < r.pending[s].len() implies {
                    let e = #[trigger] r.pending[s][j];
                    &&& e.span_id == Some(s as u64)
                    &&& spans1[s].started_at < e.timestamp
                    &&& e.timestamp < clock
                } by {
                    assert(spans1[s].started_at == spans[s].started_at);
                }
            },
        }
    }
}

/// After a span closes at the old clock and the closing is dispatched,
/// the layers are well-formed against the updated store and clock.
proof fn lemma_wf_after_close(
    ls: Seq<LayerV>,
    spans: Seq<SpanV>,
    spans1: Seq<SpanV>,
    span_id: u64,
    clock: u64,
)
    requires
        spans_wf(spans, clock),
        layers_wf(ls, spans, clock),
        clock < u64::MAX,
        (span_id as int) < spans.len(),
        spans[span_id as int].ended_at is None,
        spans1 == spans.update(
            span_id as int,
            SpanV { ended_at: Some(clock), ..spans[span_id as int] },
        ),
    ensures
        spans_wf(spans1, (clock + 1) as u64),
        layers_wf(
            spec_dispatch_close(ls, spans[span_id as int], clock),
            spans1,
            (clock + 1) as u64,
        ),
{
    let clock1 = (clock + 1) as u64;
    let sv = spans[span_id as int];
    let ls1 = spec_dispatch_close(ls, sv, clock);
    assert forall|i: int| 0 <= i < spans1.len() implies span_entry_wf(
        #[trigger] spans1[i],
        i,
        clock1,
    ) by {
        assert(span_entry_wf(spans[i], i, clock));
    }
    assert forall|k: int| 0 <= k < ls1.len() implies layer_wf(#[trigger] ls1[k], spans1, clock1) by {
        assert(layer_wf(ls[k], spans, clock));
        match ls[k] {
            LayerV::Console(_) => {},
            LayerV::Remote(r) => {
                let r1 = ls1[k]->Remote_0;
                assert(sv.id == span_id);
                assert(r1.pending == r.pending.update(span_id as int, Seq::<EventV>::empty()));
                assert forall|s: int|
                    0 <= s < spans1.len() && spans1[s].ended_at is Some implies (
                #[trigger] r1.pending[s]).len() == 0 by {
                    if s != span_id as int {
                        assert(spans[s].ended_at == spans1[s].ended_at);
                        assert(r1.pending[s] == r.pending[s]);
                    }
                }
                assert forall|s: int, j: int|
                    0 <= s < spans1.len() && 0 <= j < r1.pending[s].len() implies {
                    let e = #[trigger] r1.pending[s][j];
                    &&& e.span_id == Some(s as u64)
                    &&& spans1[s].started_at < e.timestamp
                    &&& e.timestamp < clock1
                } by {
                    assert(s != span_id as int);
                    assert(r1.pending[s] == r.pending[s]);
                    assert(spans1[s].started_at == spans[s].started_at);
                }
                assert forall|q: int| 0 <= q < r1.queue.len() implies finished_wf(
                    #[trigger] r1.queue[q],
                    clock1,
                ) by {
                    if q < r.queue.len() {
                        assert(finished_wf(r.queue[q], clock));
                    } else {
                        let f = r1.queue[q];
                        assert(f == crate::layer::spec_finished_of(
                            sv,
                            clock,
                            r.pending[span_id as int],
                        ));
                        assert(span_entry_wf(sv, span_id as int, clock));
                        assert forall|j: int| 0 <= j < f.events.len() implies f.started_at < (
                        #[trigger] f.events[j]).timestamp < f.ended_at by {
                            assert(r.pending[span_id as int][j] == f.events[j]);
                        }
                    }
                }
            },
        }
    }
}

/// After an event with the current timestamp is dispatched to every
/// layer, the layers are well-formed against the (possibly budget-
/// bumped) store and the advanced clock.
proof fn lemma_wf_after_event(
    ls: Seq<LayerV>,
    spans: Seq<SpanV>,
    line: Seq<char>,
    ev: EventV,
    clock: u64,
)
    requires
        spans_wf(spans, clock),
        layers_wf(ls, spans, clock),
        clock < u64::MAX,
        spans.len() <= u64::MAX,
        ev.timestamp == clock,
        match ev.span_id {
            Some(s) => (s as int) < spans.len() && spans[s as int].ended_at is None,
            None => true,
        },
    ensures
        forall|spans1: Seq<SpanV>|
            #[trigger] spans_like(spans1, spans) ==> spans_wf(spans1, (clock + 1) as u64)
                && layers_wf(spec_dispatch_event(ls, line, ev), spans1, (clock + 1) as u64),
{
    let clock1 = (clock + 1) as u64;
    let ls1 = spec_dispatch_event(ls, line, ev);
    assert forall|spans1: Seq<SpanV>| #[trigger] spans_like(spans1, spans) implies spans_wf(
        spans1,
        clock1,
    ) && layers_wf(ls1, spans1, clock1) by {
        assert forall|i: int| 0 <= i < spans1.len() implies span_entry_wf(
            #[trigger] spans1[i],
            i,
            clock1,
        ) by {
            assert(span_entry_wf(spans[i], i, clock));
        }
        assert forall|k: int| 0 <= k < ls1.len() implies layer_wf(
            #[trigger] ls1[k],
            spans1,
            clock1,
        ) by {
            assert(layer_wf(ls[k], spans, clock));
            match ls[k] {
                LayerV::Console(_) => {},
                LayerV::Remote(r) => {
                    let r1 = ls1[k]->Remote_0;
                    assert forall|s: int|
                        0 <= s < spans1.len() && spans1[s].ended_at is Some implies (
                    #[trigger] r1.pending[s]).len() == 0 by {
                        assert(spans[s].ended_at == spans1[s].ended_at);
                        assert(r.pending[s].len() == 0);
                        if ev.span_id == Some(s as u64) {
                            assert(spans[s].ended_at is None);
                        }
                    }
                    assert forall|s: int, j: int|
                        0 <= s < spans1.len() && 0 <= j < r1.pending[s].len() implies {
                        let e = #[trigger] r1.pending[s][j];
                        &&& e.span_id == Some(s as u64)
                        &&& spans1[s].started_at < e.timestamp
                        &&& e.timestamp < clock1
                    } by {
                        assert(spans1[s].started_at == spans[s].started_at);
                        if ev.span_id == Some(s as u64) && j == r.pending[s].len() {
                            assert(r1.pending[s][j] == ev);
                            assert(span_entry_wf(spans[s], s, clock));
                        } else {
                            assert(r1.pending[s][j] == r.pending[s][j]);
                        }
                    }
                    assert forall|q: int| 0 <= q < r1.queue.len() implies finished_wf(
                        #[trigger] r1.queue[q],
                        clock1,
                    ) by {
                        assert(finished_wf(r.queue[q], clock));
                    }
                },
            }
        }
    }
}

/// Two span stores of the same shape: same length and, entry by
/// entry, the same identifier, parent, name and lifetime; only the
/// event budget may differ.
pub open spec fn spans_like(spans1: Seq<SpanV>, spans: Seq<SpanV>) -> bool {
    &&& spans1.len() == spans.len()
    &&& forall|i: int|
        0 <= i < spans.len() ==> {
            let a = #[trigger] spans1[i];
            let b = spans[i];
            a.id == b.id && a.parent_id == b.parent_id && a.started_at == b.started_at
                && a.ended_at == b.ended_at
        }
}

/// After a new open span is appended and the creation dispatched, the
/// layers are well-formed against the grown store and advanced clock.
proof fn lemma_wf_after_new_span(ls: Seq<LayerV>, spans: Seq<SpanV>, span: SpanV, clock: u64)
    requires
        spans_wf(spans, clock),
        layers_wf(ls, spans, clock),
        clock < u64::MAX,
        span.id == spans.len() as u64,
        spans.len() < u64::MAX,
        match span.parent_id {
            Some(p) => (p as int) < spans.len(),
            None => true,
        },
        span.started_at == clock,
        span.ended_at is None,
    ensures
        spans_wf(spans.push(span), (clock + 1) as u64),
        layers_wf(spec_dispatch_new_span(ls), spans.push(span), (clock + 1) as u64),
{
    let spans1 = spans.push(span);
    let clock1 = (clock + 1) as u64;
    assert forall|i: int| 0 <= i < spans1.len() implies span_entry_wf(
        #[trigger] spans1[i],
        i,
        clock1,
    ) by {
        if i < spans.len() {
            assert(span_entry_wf(spans[i], i, clock));
        }
    }
    let ls1 = spec_dispatch_new_span(ls);
    assert forall|k: int| 0 <= k < ls1.len() implies layer_wf(
        #[trigger] ls1[k],
        spans1,
        clock1,
    ) by {
        assert(layer_wf(ls[k], spans, clock));
        match ls[k] {
            LayerV::Console(_) => {},
            LayerV::Remote(r) => {
                let r1 = RemoteV {
                    pending: r.pending.push(Seq::empty()),
                    queue: r.queue,
                    shut_down: r.shut_down,
                };
                assert(ls1[k] == LayerV::Remote(r1));
                assert forall|s: int|
                    0 <= s < spans1.len() && spans1[s].ended_at is Some implies (
                #[trigger] r1.pending[s]).len() == 0 by {
                    assert(s < spans.len());
                    assert(r1.pending[s] == r.pending[s]);
                }
                assert forall|s: int, j: int|
                    0 <= s < spans1.len() && 0 <= j < r1.pending[s].len() implies {
                    let e = #[trigger] r1.pending[s][j];
                    &&& e.span_id == Some(s as u64)
                    &&& spans1[s].started_at < e.timestamp
                    &&& e.timestamp < clock1
                } by {
                    assert(s < spans.len());
                    assert(r1.pending[s] == r.pending[s]);
                    assert(spans1[s] == spans[s]);
                }
                assert forall|q: int| 0 <= q < r1.queue.len() implies finished_wf(
                    #[trigger] r1.queue[q],
                    clock1,
                ) by {
                    assert(finished_wf(r.queue[q], clock));
                }
            },
        }
    }
}

} // verus!
