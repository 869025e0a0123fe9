//! End-to-end flows through the registry: dispatch to the console and
//! remote layers, the closing policy, the event budget, and the
//! idempotent final flush with sink isolation.

use tracepipe::data::{ExportError, FieldValue, Level, TraceError};
use tracepipe::layer::{ConsoleLayer, Layer, RemoteLayer};
use tracepipe::registry::Registry;
use tracepipe::stack::ContextStack;

fn console_lines(reg: &Registry) -> Vec<String> {
    let mut out: Vec<String> = Vec::new();
    for l in reg.layers.iter() {
        if let Layer::Console(c) = l {
            for line in c.lines.iter() {
                out.push(line.clone());
            }
        }
    }
    out
}

fn fresh_registry() -> Registry {
    let mut reg = Registry::new(1000, 1000);
    reg.register(Layer::Console(ConsoleLayer::new()));
    reg.register(Layer::Remote(RemoteLayer::new()));
    reg
}

#[test]
fn console_renders_event_in_active_span() {
    let mut reg = fresh_registry();
    let root = reg
        .record_span_create(
            String::from("app_start"),
            vec![(String::from("work_units"), FieldValue::Integer(2))],
            None,
        )
        .unwrap();
    let mut stack = ContextStack::new();
    stack.enter(root);
    assert_eq!(
        reg.record_event(Level::Info, String::from("hello"), Vec::new(), stack.current()),
        Ok(true)
    );
    let lines = console_lines(&reg);
    assert_eq!(lines.len(), 1);
    assert!(lines[0].contains("app_start"));
    assert!(lines[0].contains("hello"));
    assert_eq!(lines[0], "[INFO] app_start: hello");
}

#[test]
fn spawned_tasks_attribute_to_parent_span() {
    let mut reg = fresh_registry();
    let parent = reg
        .record_span_create(String::from("parent_work"), Vec::new(), None)
        .unwrap();
    let mut parent_stack = ContextStack::new();
    parent_stack.enter(parent);
    let captured = parent_stack.capture();

    // Three spawned tasks, resumed in an arbitrary interleaving; each
    // restores the captured span and records one event.
    let mut task_stacks: Vec<ContextStack> = Vec::new();
    for _ in 0..3 {
        task_stacks.push(ContextStack::for_task(captured));
    }
    // The parent task unwinds before the children run.
    assert_eq!(parent_stack.exit(parent), Ok(()));
    for stack in task_stacks.iter().rev() {
        assert_eq!(
            reg.record_event(Level::Info, String::from("tick"), Vec::new(), stack.current()),
            Ok(true)
        );
    }
    let lines = console_lines(&reg);
    assert_eq!(lines.len(), 3);
    for line in lines.iter() {
        assert!(line.contains("parent_work"));
        assert!(line.contains("tick"));
    }
}

#[test]
fn closing_with_open_children_is_rejected() {
    let mut reg = fresh_registry();
    let root = reg
        .record_span_create(String::from("root"), Vec::new(), None)
        .unwrap();
    let child = reg
        .record_span_create(String::from("child"), Vec::new(), Some(root))
        .unwrap();
    assert_eq!(reg.record_close(root), Err(TraceError::OpenChildren));
    assert_eq!(reg.record_close(child), Ok(()));
    assert_eq!(reg.record_close(root), Ok(()));
    assert_eq!(reg.record_close(root), Err(TraceError::SpanClosed));
}

#[test]
fn closed_span_accepts_no_children_and_no_events() {
    let mut reg = fresh_registry();
    let root = reg
        .record_span_create(String::from("root"), Vec::new(), None)
        .unwrap();
    assert_eq!(reg.record_close(root), Ok(()));
    assert_eq!(
        reg.record_span_create(String::from("late"), Vec::new(), Some(root)),
        Err(TraceError::SpanClosed)
    );
    assert_eq!(
        reg.record_event(Level::Info, String::from("late"), Vec::new(), Some(root)),
        Err(TraceError::SpanClosed)
    );
    assert_eq!(
        reg.record_event(Level::Info, String::from("lost"), Vec::new(), Some(99)),
        Err(TraceError::UnknownSpan)
    );
    assert_eq!(
        reg.record_span_create(String::from("lost"), Vec::new(), Some(99)),
        Err(TraceError::UnknownSpan)
    );
}

#[test]
fn closing_while_entered_is_rejected() {
    let mut reg = fresh_registry();
    let root = reg
        .record_span_create(String::from("root"), Vec::new(), None)
        .unwrap();
    assert_eq!(reg.record_enter(root), Ok(()));
    assert_eq!(reg.record_close(root), Err(TraceError::StillEntered));
    assert_eq!(reg.record_exit(root), Ok(()));
    assert_eq!(reg.record_exit(root), Err(TraceError::NotLifo));
    assert_eq!(reg.record_close(root), Ok(()));
}

#[test]
fn event_budget_drops_further_events() {
    let mut reg = Registry::new(1, 1000);
    reg.register(Layer::Console(ConsoleLayer::new()));
    let root = reg
        .record_span_create(String::from("tight"), Vec::new(), None)
        .unwrap();
    assert_eq!(
        reg.record_event(Level::Info, String::from("kept"), Vec::new(), Some(root)),
        Ok(true)
    );
    assert_eq!(
        reg.record_event(Level::Info, String::from("dropped"), Vec::new(), Some(root)),
        Ok(false)
    );
    let lines = console_lines(&reg);
    assert_eq!(lines.len(), 1);
    assert!(lines[0].contains("kept"));
}

#[test]
fn attributes_are_capped_at_the_configured_limit() {
    let mut reg = Registry::new(1000, 2);
    let root = reg
        .record_span_create(
            String::from("wide"),
            vec![
                (String::from("a"), FieldValue::Integer(1)),
                (String::from("b"), FieldValue::Integer(2)),
                (String::from("c"), FieldValue::Integer(3)),
            ],
            None,
        )
        .unwrap();
    assert_eq!(reg.spans[root as usize].attributes.len(), 2);
    assert_eq!(reg.spans[root as usize].attributes[0].0, "a");
    assert_eq!(reg.spans[root as usize].attributes[1].0, "b");
}

#[test]
fn flush_and_shutdown_is_idempotent() {
    let mut reg = fresh_registry();
    let root = reg
        .record_span_create(String::from("exported"), Vec::new(), None)
        .unwrap();
    assert_eq!(
        reg.record_event(Level::Info, String::from("payload"), Vec::new(), Some(root)),
        Ok(true)
    );
    assert_eq!(reg.record_close(root), Ok(()));

    let first = reg.take_export_batch();
    assert_eq!(first.len(), 1);
    assert_eq!(first[0].name, "exported");
    assert_eq!(first[0].parent_id, None);
    assert_eq!(first[0].events.len(), 1);
    assert_eq!(first[0].events[0].message, "payload");
    // Every exported event lies strictly inside its span's lifetime.
    assert!(first[0].started_at < first[0].events[0].timestamp);
    assert!(first[0].events[0].timestamp < first[0].ended_at);

    // A second flush exports nothing again: no duplicate, no fault.
    let second = reg.take_export_batch();
    assert_eq!(second.len(), 0);
    let third = reg.take_export_batch();
    assert_eq!(third.len(), 0);
}

#[test]
fn transient_export_error_does_not_alter_event_output() {
    let mut faulty = fresh_registry();
    let mut healthy = fresh_registry();
    for reg in [&mut faulty, &mut healthy] {
        let root = reg
            .record_span_create(String::from("app_start"), Vec::new(), None)
            .unwrap();
        assert_eq!(
            reg.record_event(Level::Info, String::from("hello"), Vec::new(), Some(root)),
            Ok(true)
        );
        assert_eq!(reg.record_close(root), Ok(()));
        let batch = reg.take_export_batch();
        assert_eq!(batch.len(), 1);
    }
    let before = console_lines(&faulty);
    faulty.report_export_outcome(Err(ExportError::Transient));
    healthy.report_export_outcome(Ok(()));

    // The failure is logged locally as a warning, after the event
    // lines, which stay exactly as they were.
    let after = console_lines(&faulty);
    assert_eq!(&after[..before.len()], &before[..]);
    assert_eq!(after.len(), before.len() + 1);
    assert_eq!(after[after.len() - 1], "[WARN] -: trace export failed");

    // The healthy run's event lines are identical to the faulty run's.
    let healthy_lines = console_lines(&healthy);
    assert_eq!(healthy_lines, before);
}

#[test]
fn shutdown_timeout_is_logged_and_not_fatal() {
    let mut reg = fresh_registry();
    reg.take_export_batch();
    reg.report_export_outcome(Err(ExportError::ShutdownTimeout));
    let lines = console_lines(&reg);
    assert_eq!(lines.len(), 1);
    assert_eq!(lines[0], "[WARN] -: trace export flush timed out");
}

#[test]
fn scoped_event_runs_the_whole_lifecycle() {
    let mut reg = fresh_registry();
    let root = reg
        .record_span_create(String::from("caller"), Vec::new(), None)
        .unwrap();
    let mut stack = ContextStack::new();
    stack.enter(root);

    let sid = reg
        .record_scoped_event(
            &mut stack,
            String::from("my_step"),
            vec![(String::from("val"), FieldValue::Integer(12))],
            Level::Info,
            String::from("Calling my_step with argument 12"),
            Vec::new(),
        )
        .unwrap();

    // The caller's context is restored exactly.
    assert_eq!(stack.current(), Some(root));
    assert_eq!(stack.depth(), 1);

    // The new span hangs under the caller's current span, carries the
    // argument, saw one event, and is closed with no entry left open.
    let span = &reg.spans[sid as usize];
    assert_eq!(span.name, "my_step");
    assert_eq!(span.parent_id, Some(root));
    assert_eq!(span.attributes.len(), 1);
    assert_eq!(span.attributes[0].0, "val");
    assert_eq!(span.event_count, 1);
    assert_eq!(span.open_enters, 0);
    assert!(span.ended_at.is_some());

    // Exactly one line was rendered, inside the new span.
    let lines = console_lines(&reg);
    assert_eq!(lines, vec![String::from("[INFO] my_step: Calling my_step with argument 12")]);

    // The finished-span record reaches the exporter with its event.
    assert_eq!(reg.record_exit(root), Err(TraceError::NotLifo));
    assert_eq!(stack.exit(root), Ok(()));
    assert_eq!(reg.record_close(root), Ok(()));
    let batch = reg.take_export_batch();
    assert_eq!(batch.len(), 2);
    assert_eq!(batch[0].name, "my_step");
    assert_eq!(batch[0].parent_id, Some(root));
    assert_eq!(batch[0].events.len(), 1);
    assert_eq!(batch[0].events[0].message, "Calling my_step with argument 12");
    assert_eq!(batch[1].name, "caller");
}

#[test]
fn scoped_event_rejected_under_stale_or_closed_span() {
    let mut reg = fresh_registry();
    let mut stale = ContextStack::new();
    stale.enter(99);
    assert_eq!(
        reg.record_scoped_event(
            &mut stale,
            String::from("lost"),
            Vec::new(),
            Level::Info,
            String::from("never"),
            Vec::new(),
        ),
        Err(TraceError::UnknownSpan)
    );

    let root = reg
        .record_span_create(String::from("caller"), Vec::new(), None)
        .unwrap();
    let mut stack = ContextStack::new();
    stack.enter(root);
    assert_eq!(reg.record_close(root), Ok(()));
    assert_eq!(
        reg.record_scoped_event(
            &mut stack,
            String::from("late"),
            Vec::new(),
            Level::Info,
            String::from("never"),
            Vec::new(),
        ),
        Err(TraceError::SpanClosed)
    );
    // Nothing was rendered or queued by the rejected calls.
    assert_eq!(console_lines(&reg).len(), 0);
    assert_eq!(stack.current(), Some(root));
}

#[test]
fn scoped_event_with_no_event_budget_still_closes() {
    let mut reg = Registry::new(0, 1000);
    reg.register(Layer::Console(ConsoleLayer::new()));
    let mut stack = ContextStack::new();
    let sid = reg
        .record_scoped_event(
            &mut stack,
            String::from("quiet"),
            Vec::new(),
            Level::Info,
            String::from("dropped"),
            Vec::new(),
        )
        .unwrap();
    assert_eq!(reg.spans[sid as usize].event_count, 0);
    assert!(reg.spans[sid as usize].ended_at.is_some());
    assert_eq!(console_lines(&reg).len(), 0);
    assert_eq!(stack.current(), None);
}

#[test]
fn enter_and_exit_transitions_leave_every_layer_unchanged() {
    let mut reg = fresh_registry();
    let root = reg
        .record_span_create(String::from("root"), Vec::new(), None)
        .unwrap();
    assert_eq!(reg.record_enter(root), Ok(()));
    assert_eq!(reg.record_exit(root), Ok(()));
    assert_eq!(console_lines(&reg).len(), 0);
    for l in reg.layers.iter() {
        if let Layer::Remote(r) = l {
            assert_eq!(r.queue.len(), 0);
            assert_eq!(r.pending.len(), 1);
            assert_eq!(r.pending[0].len(), 0);
        }
    }
}

#[test]
fn event_without_span_renders_with_placeholder() {
    let mut reg = fresh_registry();
    assert_eq!(
        reg.record_event(Level::Debug, String::from("free"), Vec::new(), None),
        Ok(true)
    );
    let lines = console_lines(&reg);
    assert_eq!(lines, vec![String::from("[DEBUG] -: free")]);
}
