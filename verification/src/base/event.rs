use vstd::prelude::*;

use super::store::Store;

verus! {

/// Mathematical view of double-buffered events: what was sent during the
/// current frame, and what the previous frame sent (readable now).
pub struct EventsView<T> {
    pub pending: Seq<T>,
    pub readable: Seq<T>,
}

/// The buffers after sending `e`.
pub open spec fn spec_send<T>(v: EventsView<T>, e: T) -> EventsView<T> {
    EventsView { pending: v.pending.push(e), readable: v.readable }
}

/// The buffers after a frame boundary: this frame's events become readable,
/// the previous frame's are dropped.
pub open spec fn spec_swap<T>(v: EventsView<T>) -> EventsView<T> {
    EventsView { pending: Seq::empty(), readable: v.pending }
}

/// The buffers after sending each of `es` in order.
pub open spec fn spec_send_all<T>(v: EventsView<T>, es: Seq<T>) -> EventsView<T>
    decreases es.len(),
{
    if es.len() == 0 {
        v
    } else {
        spec_send(spec_send_all(v, es.drop_last()), es.last())
    }
}

/// Double-buffered event storage for a specific event type.
pub struct Events<T> {
    /// Events sent during the current frame.
    writing: Vec<T>,
    /// Events sent during the previous frame.
    reading: Vec<T>,
}

impl<T> Store for Events<T> {}

impl<T> View for Events<T> {
    type V = EventsView<T>;

    closed spec fn view(&self) -> EventsView<T> {
        EventsView { pending: self.writing@, readable: self.reading@ }
    }
}

impl<T> Events<T> {
    pub fn new() -> (e: Self)
        ensures
            e@ == (EventsView::<T> { pending: Seq::empty(), readable: Seq::empty() }),
    {
        Events { writing: Vec::new(), reading: Vec::new() }
    }

    pub fn send(&mut self, event: T)
        ensures
            final(self)@ == spec_send(old(self)@, event),
    {
        self.writing.push(event);
    }

    /// The events sent during the previous frame, in the order they were sent.
    pub fn read(&self) -> (r: &[T])
        ensures
            r@ == self@.readable,
    {
        self.reading.as_slice()
    }

    pub fn swap(&mut self)
        ensures
            final(self)@ == spec_swap(old(self)@),
    {
        std::mem::swap(&mut self.writing, &mut self.reading);
        self.writing.clear();
    }
}

/// Whatever one frame sends, in order, is exactly what the next frame reads.
pub proof fn law_sent_then_read<T>(v: EventsView<T>, es: Seq<T>)
    ensures
        spec_swap(spec_send_all(v, es)).readable == v.pending + es,
    decreases es.len(),
{
    if es.len() == 0 {
        assert(v.pending + es =~= v.pending);
    } else {
        law_sent_then_read(v, es.drop_last());
        assert(v.pending + es =~= (v.pending + es.drop_last()).push(es.last()));
    }
}

/// Events sent before a frame boundary are gone after the following one.
pub proof fn law_two_swaps_forget<T>(v: EventsView<T>)
    ensures
        spec_swap(spec_swap(v)).readable == Seq::<T>::empty(),
        spec_swap(spec_swap(v)).pending == Seq::<T>::empty(),
{
}

} // verus!
