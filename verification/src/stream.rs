//! Handing bytes on between a client and an upstream host, both ways.

use vstd::prelude::*;

verus! {

/// What happened on one of the two connections.
pub enum Event {
    /// The upstream host sent these bytes; none where it closed its side.
    FromUpstream(Vec<u8>),
    /// The client sent these bytes; none where it closed its side.
    FromClient(Vec<u8>),
    /// Reading or writing failed.
    Failed(String),
}

/// What is to be done next.
pub enum Action {
    /// Write these bytes to the client, and flush.
    ToClient(Vec<u8>),
    /// Write these bytes to the upstream host, and flush.
    ToUpstream(Vec<u8>),
    /// Read on, but only from the upstream host.
    Drain,
    /// Flush what went to the client, and end.
    Finish,
    /// End with this failure.
    Fail(String),
}

/// The view of an event.
pub enum EventView {
    /// The upstream host sent these bytes.
    FromUpstream(Seq<u8>),
    /// The client sent these bytes.
    FromClient(Seq<u8>),
    /// Reading or writing failed.
    Failed(Seq<char>),
}

/// The view of an action.
pub enum ActionView {
    /// Write these bytes to the client.
    ToClient(Seq<u8>),
    /// Write these bytes to the upstream host.
    ToUpstream(Seq<u8>),
    /// Read on, but only from the upstream host.
    Drain,
    /// End.
    Finish,
    /// End with this failure.
    Fail(Seq<char>),
}

impl View for Event {
    type V = EventView;

    open spec fn view(&self) -> EventView {
        match *self {
            Event::FromUpstream(b) => EventView::FromUpstream(b@),
            Event::FromClient(b) => EventView::FromClient(b@),
            Event::Failed(e) => EventView::Failed(e@),
        }
    }
}

impl View for Action {
    type V = ActionView;

    open spec fn view(&self) -> ActionView {
        match *self {
            Action::ToClient(b) => ActionView::ToClient(b@),
            Action::ToUpstream(b) => ActionView::ToUpstream(b@),
            Action::Drain => ActionView::Drain,
            Action::Finish => ActionView::Finish,
            Action::Fail(e) => ActionView::Fail(e@),
        }
    }
}

/// Which sides are still read from.
#[derive(Clone, Copy, Debug, PartialEq, Eq, Structural)]
pub enum Relay {
    /// Both.
    Open,
    /// The upstream host: the client has closed its side.
    Draining,
    /// None: the relay has ended.
    Ended,
}

/// What is to be done on an event.
pub open spec fn response(e: EventView) -> ActionView {
    match e {
        EventView::FromUpstream(b) => if b.len() == 0 {
            ActionView::Finish
        } else {
            ActionView::ToClient(b)
        },
        EventView::FromClient(b) => if b.len() == 0 {
            ActionView::Drain
        } else {
            ActionView::ToUpstream(b)
        },
        EventView::Failed(m) => ActionView::Fail(m),
    }
}

/// Which sides are read from after an event.
pub open spec fn relay_after(r: Relay, e: EventView) -> Relay {
    match e {
        EventView::FromUpstream(b) => if b.len() == 0 {
            Relay::Ended
        } else {
            r
        },
        EventView::FromClient(b) => if b.len() == 0 {
            Relay::Draining
        } else {
            r
        },
        EventView::Failed(_) => Relay::Ended,
    }
}

/// Whether the event can happen: nothing comes from a side that is not read from.
pub open spec fn can_happen(r: Relay, e: EventView) -> bool {
    match r {
        Relay::Open => true,
        Relay::Draining => !(e is FromClient),
        Relay::Ended => false,
    }
}

impl Relay {
    /// A relay that reads from both sides.
    pub fn new() -> (r: Relay)
        ensures
            r == Relay::Open,
    {
        Relay::Open
    }

    /// Whether the client is still read from.
    pub fn reads_client(&self) -> (b: bool)
        ensures
            b == (*self == Relay::Open),
    {
        *self == Relay::Open
    }

    /// What is to be done on an event.
    pub fn step(&mut self, event: Event) -> (action: Action)
        requires
            can_happen(*old(self), event@),
        ensures
            action@ == response(event@),
            *final(self) == relay_after(*old(self), event@),
    {
        match event {
            Event::FromUpstream(b) => {
                if b.len() == 0 {
                    *self = Relay::Ended;
                    Action::Finish
                } else {
                    Action::ToClient(b)
                }
            },
            Event::FromClient(b) => {
                if b.len() == 0 {
                    *self = Relay::Draining;
                    Action::Drain
                } else {
                    Action::ToUpstream(b)
                }
            },
            Event::Failed(e) => {
                *self = Relay::Ended;
                Action::Fail(e)
            },
        }
    }
}

// ---------------------------------------------------------------------------
// Laws
// ---------------------------------------------------------------------------

/// The relay after a run of events.
pub open spec fn relay_after_all(events: Seq<EventView>) -> Relay
    decreases events.len(),
{
    if events.len() == 0 {
        Relay::Open
    } else {
        relay_after(relay_after_all(events.drop_last()), events.last())
    }
}

/// Whether the events can happen one after the other.
pub open spec fn can_all_happen(events: Seq<EventView>) -> bool
    decreases events.len(),
{
    events.len() == 0 || (can_all_happen(events.drop_last()) && can_happen(
        relay_after_all(events.drop_last()),
        events.last(),
    ))
}

/// What is done on a run of events.
pub open spec fn responses(events: Seq<EventView>) -> Seq<ActionView> {
    Seq::new(events.len(), |i: int| response(events[i]))
}

/// All bytes that came from the upstream host.
pub open spec fn sent_by_upstream(events: Seq<EventView>) -> Seq<u8>
    decreases events.len(),
{
    if events.len() == 0 {
        Seq::empty()
    } else {
        let before = sent_by_upstream(events.drop_last());
        match events.last() {
            EventView::FromUpstream(b) => before + b,
            _ => before,
        }
    }
}

/// All bytes that came from the client.
pub open spec fn sent_by_client(events: Seq<EventView>) -> Seq<u8>
    decreases events.len(),
{
    if events.len() == 0 {
        Seq::empty()
    } else {
        let before = sent_by_client(events.drop_last());
        match events.last() {
            EventView::FromClient(b) => before + b,
            _ => before,
        }
    }
}

/// All bytes that were written to the client.
pub open spec fn got_by_client(actions: Seq<ActionView>) -> Seq<u8>
    decreases actions.len(),
{
    if actions.len() == 0 {
        Seq::empty()
    } else {
        let before = got_by_client(actions.drop_last());
        match actions.last() {
            ActionView::ToClient(b) => before + b,
            _ => before,
        }
    }
}

/// All bytes that were written to the upstream host.
pub open spec fn got_by_upstream(actions: Seq<ActionView>) -> Seq<u8>
    decreases actions.len(),
{
    if actions.len() == 0 {
        Seq::empty()
    } else {
        let before = got_by_upstream(actions.drop_last());
        match actions.last() {
            ActionView::ToUpstream(b) => before + b,
            _ => before,
        }
    }
}

/// Each side gets all bytes that the other sent, in order and unchanged.
pub proof fn law_bytes_arrive_unchanged(events: Seq<EventView>)
    ensures
        got_by_client(responses(events)) == sent_by_upstream(events),
        got_by_upstream(responses(events)) == sent_by_client(events),
    decreases events.len(),
{
    if events.len() > 0 {
        law_bytes_arrive_unchanged(events.drop_last());
        assert(responses(events).drop_last() =~= responses(events.drop_last()));
        assert(responses(events).last() == response(events.last()));
        match events.last() {
            EventView::FromUpstream(b) => {
                assert(sent_by_upstream(events) =~= got_by_client(responses(events)));
            },
            EventView::FromClient(b) => {
                assert(sent_by_client(events) =~= got_by_upstream(responses(events)));
            },
            EventView::Failed(_) => {},
        }
    }
}

/// Nothing is taken from the client once it has closed its side, and the relay ends
/// when the upstream host closes its side or something fails, not before.
pub proof fn law_relay_ends_with_upstream(events: Seq<EventView>)
    requires
        can_all_happen(events),
        events.len() > 0,
    ensures
        relay_after_all(events) == Relay::Ended <==> (events.last() is Failed || (events.last()
            matches EventView::FromUpstream(b) && b.len() == 0)),
        relay_after_all(events.drop_last()) == Relay::Draining ==> !(events.last() is FromClient),
{
}

/// What comes from one side goes to the other, at once and as it came. The end of the
/// client's side drains the relay, that of the upstream's finishes it, and a failure fails
/// it.
pub proof fn law_each_side_is_answered(b: Seq<u8>, m: Seq<char>, r: Relay)
    ensures
        b.len() > 0 ==> response(EventView::FromUpstream(b)) == ActionView::ToClient(b),
        b.len() > 0 ==> response(EventView::FromClient(b)) == ActionView::ToUpstream(b),
        response(EventView::FromUpstream(Seq::empty())) == ActionView::Finish,
        response(EventView::FromClient(Seq::empty())) == ActionView::Drain,
        response(EventView::Failed(m)) == ActionView::Fail(m),
        b.len() > 0 ==> relay_after(r, EventView::FromUpstream(b)) == r && relay_after(
            r,
            EventView::FromClient(b),
        ) == r,
        relay_after(r, EventView::FromUpstream(Seq::empty())) == Relay::Ended,
        relay_after(r, EventView::FromClient(Seq::empty())) == Relay::Draining,
        relay_after(r, EventView::Failed(m)) == Relay::Ended,
{
}

/// What happens, and what is to be done, are seen with all that they hold.
pub proof fn law_event_is_seen_whole(e: Event, a: Action)
    ensures
        e matches Event::FromUpstream(b) ==> e@ == EventView::FromUpstream(b@),
        e matches Event::FromClient(b) ==> e@ == EventView::FromClient(b@),
        e matches Event::Failed(m) ==> e@ == EventView::Failed(m@),
        a matches Action::ToClient(b) ==> a@ == ActionView::ToClient(b@),
        a matches Action::ToUpstream(b) ==> a@ == ActionView::ToUpstream(b@),
        a matches Action::Fail(m) ==> a@ == ActionView::Fail(m@),
        a is Drain <==> a@ is Drain,
        a is Finish <==> a@ is Finish,
{
}

} // verus!
