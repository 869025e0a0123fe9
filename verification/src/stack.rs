//! The context stack: a task-local record of the currently entered
//! spans, kept in strict LIFO discipline, with explicit capture of the
//! current span for newly spawned tasks.

use vstd::prelude::*;

verus! {

/// The chain of currently open span identifiers for one logical task;
/// the last element is the currently active span.
pub struct ContextStack {
    pub ids: Vec<u64>,
}

/// The stack a freshly spawned task starts with, given the span
/// reference captured from its parent at spawn time.
pub open spec fn spec_for_task(captured: Option<u64>) -> Seq<u64> {
    match captured {
        Some(p) => seq![p],
        None => Seq::empty(),
    }
}

/// The currently active span of a stack: its top, if any.
pub open spec fn spec_current(ids: Seq<u64>) -> Option<u64> {
    if ids.len() == 0 {
        None
    } else {
        Some(ids.last())
    }
}

/// The stack left by a lenient out-of-order exit of `id`: everything
/// above and including the topmost occurrence of `id` is popped; a
/// stack that does not hold `id` at all is cleared, since every entry
/// on it is then past the offending depth.
pub open spec fn spec_recovered(ids: Seq<u64>, id: u64) -> Seq<u64>
    decreases ids.len(),
{
    if ids.len() == 0 {
        ids
    } else if ids.last() == id {
        ids.drop_last()
    } else {
        spec_recovered(ids.drop_last(), id)
    }
}

impl View for ContextStack {
    type V = Seq<u64>;

    open spec fn view(&self) -> Seq<u64> {
        self.ids@
    }
}

impl ContextStack {
    /// A fresh stack with no entered span.
    pub fn new() -> (r: ContextStack)
        ensures
            r@ == Seq::<u64>::empty(),
    {
        ContextStack { ids: Vec::new() }
    }

    /// The initial stack of a task spawned with the given captured
    /// span reference: the captured span is restored as the task's
    /// active span, independent of the parent task's lifetime.
    pub fn for_task(captured: Option<u64>) -> (r: ContextStack)
        ensures
            r@ == spec_for_task(captured),
    {
        let mut ids: Vec<u64> = Vec::new();
        match captured {
            Some(p) => {
                ids.push(p);
            },
            None => {},
        }
        proof {
            assert(ids@ =~= spec_for_task(captured));
        }
        ContextStack { ids }
    }

    /// How many spans are currently entered.
    pub fn depth(&self) -> (r: usize)
        ensures
            r == self@.len(),
    {
        self.ids.len()
    }

    /// The currently active span, if any.
    pub fn current(&self) -> (r: Option<u64>)
        ensures
            r == spec_current(self@),
    {
        if self.ids.len() == 0 {
            None
        } else {
            Some(self.ids[self.ids.len() - 1])
        }
    }

    /// Captures the current span reference by value, to be carried
    /// into a newly spawned task.
    pub fn capture(&self) -> (r: Option<u64>)
        ensures
            r == spec_current(self@),
    {
        self.current()
    }

    /// Enters a span: it becomes the active one, on top of the
    /// previous chain.
    pub fn enter(&mut self, id: u64)
        ensures
            final(self)@ == old(self)@.push(id),
            spec_current(final(self)@) == Some(id),
    {
        self.ids.push(id);
    }

    /// Exits a span. In LIFO use (`id` is the current top) the
    /// previous top is restored and `Ok` is returned. Out-of-order
    /// use is a discipline fault: `Err` is returned and the stack is
    /// popped down past the topmost occurrence of `id` (best-effort
    /// recovery), clearing it when `id` is not on the stack at all.
    pub fn exit(&mut self, id: u64) -> (r: Result<(), crate::data::TraceError>)
        ensures
            r is Ok <==> (old(self)@.len() > 0 && old(self)@.last() == id),
            r is Ok ==> final(self)@ == old(self)@.drop_last(),
            r is Err ==> final(self)@ == spec_recovered(old(self)@, id),
            r is Err ==> r == Result::<(), crate::data::TraceError>::Err(
                crate::data::TraceError::NotLifo,
            ),
    {
        if self.ids.len() > 0 {
            let top = self.ids[self.ids.len() - 1];
            if top == id {
                self.ids.pop();
                return Ok(());
            }
        }
        // Discipline fault: recover by popping to the offending depth.
        let ghost orig: Seq<u64> = self.ids@;
        while self.ids.len() > 0
            invariant_except_break
                spec_recovered(self.ids@, id) == spec_recovered(orig, id),
            ensures
                self.ids@ == spec_recovered(orig, id),
            decreases self.ids@.len(),
        {
            let ghost pre: Seq<u64> = self.ids@;
            let top = self.ids[self.ids.len() - 1];
            self.ids.pop();
            if top == id {
                proof {
                    assert(pre.last() == id);
                    assert(spec_recovered(pre, id) == pre.drop_last());
                }
                break;
            }
        }
        Err(crate::data::TraceError::NotLifo)
    }
}

} // verus!
