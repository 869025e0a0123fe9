//! The context stack against a reference stack simulation, and the
//! capture-and-restore of the active span across task spawns.

use tracepipe::data::TraceError;
use tracepipe::stack::ContextStack;

#[test]
fn lifo_enter_exit_matches_reference_stack() {
    // Reference simulation: a plain Vec of ids, kept side by side.
    let mut stack = ContextStack::new();
    let mut reference: Vec<u64> = Vec::new();
    assert_eq!(stack.current(), None);

    let ops: [u64; 4] = [10, 11, 12, 13];
    for id in ops {
        stack.enter(id);
        reference.push(id);
        assert_eq!(stack.current(), reference.last().copied());
        assert_eq!(stack.depth(), reference.len());
    }
    while let Some(top) = reference.last().copied() {
        assert_eq!(stack.current(), Some(top));
        assert_eq!(stack.exit(top), Ok(()));
        reference.pop();
        assert_eq!(stack.current(), reference.last().copied());
        assert_eq!(stack.depth(), reference.len());
    }
    assert_eq!(stack.current(), None);
    assert_eq!(stack.depth(), 0);
}

#[test]
fn out_of_order_exit_recovers_to_offending_depth() {
    let mut stack = ContextStack::new();
    stack.enter(1);
    stack.enter(2);
    stack.enter(3);
    // Exiting 1 while 3 is on top is a discipline fault; recovery pops
    // down past the topmost occurrence of 1.
    assert_eq!(stack.exit(1), Err(TraceError::NotLifo));
    assert_eq!(stack.depth(), 0);
    assert_eq!(stack.current(), None);
}

#[test]
fn out_of_order_exit_keeps_entries_below_offender() {
    let mut stack = ContextStack::new();
    stack.enter(1);
    stack.enter(2);
    stack.enter(3);
    assert_eq!(stack.exit(2), Err(TraceError::NotLifo));
    assert_eq!(stack.current(), Some(1));
    assert_eq!(stack.depth(), 1);
}

#[test]
fn exit_of_unknown_span_clears_the_stack() {
    let mut stack = ContextStack::new();
    stack.enter(5);
    assert_eq!(stack.exit(7), Err(TraceError::NotLifo));
    assert_eq!(stack.current(), None);
}

#[test]
fn spawned_task_restores_captured_span() {
    let mut parent = ContextStack::new();
    parent.enter(42);
    parent.enter(43);
    let captured = parent.capture();
    assert_eq!(captured, Some(43));

    // The parent may move on or even unwind entirely; the child task's
    // context still starts at the captured span.
    assert_eq!(parent.exit(43), Ok(()));
    assert_eq!(parent.exit(42), Ok(()));

    let child = ContextStack::for_task(captured);
    assert_eq!(child.current(), Some(43));
    assert_eq!(child.depth(), 1);

    let orphan = ContextStack::for_task(None);
    assert_eq!(orphan.current(), None);
    assert_eq!(orphan.depth(), 0);
}
