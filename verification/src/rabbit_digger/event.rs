//! What the flows of the running servers report.

use crate::address::{Address, AddressView};
use crate::visitor::names_of;
use vstd::prelude::*;

verus! {

/// What happened to a flow.
#[derive(Debug)]
pub enum EventType {
    /// A connection to the address was opened, through the nets of the chain.
    NewTcp(Address, Vec<String>),
    /// A datagram socket was bound at the address, through the nets of the chain.
    NewUdp(Address, Vec<String>),
    /// This many bytes came in.
    Inbound(usize),
    /// This many bytes went out.
    Outbound(usize),
    /// The flow ended.
    Closed,
}

/// One report: the flow, what happened to it, and when, in milliseconds.
#[derive(Debug)]
pub struct Event {
    pub uuid: u128,
    pub event_type: EventType,
    pub time: u64,
}

/// What an event type says.
pub enum EventTypeView {
    NewTcp(AddressView, Seq<Seq<char>>),
    NewUdp(AddressView, Seq<Seq<char>>),
    Inbound(usize),
    Outbound(usize),
    Closed,
}

/// What an event says.
pub struct EventView {
    pub uuid: u128,
    pub event_type: EventTypeView,
    pub time: u64,
}

impl View for EventType {
    type V = EventTypeView;

    open spec fn view(&self) -> EventTypeView {
        match self {
            EventType::NewTcp(a, c) => EventTypeView::NewTcp(a@, names_of(c@)),
            EventType::NewUdp(a, c) => EventTypeView::NewUdp(a@, names_of(c@)),
            EventType::Inbound(n) => EventTypeView::Inbound(*n),
            EventType::Outbound(n) => EventTypeView::Outbound(*n),
            EventType::Closed => EventTypeView::Closed,
        }
    }
}

impl View for Event {
    type V = EventView;

    open spec fn view(&self) -> EventView {
        EventView { uuid: self.uuid, event_type: self.event_type@, time: self.time }
    }
}

impl Event {
    pub fn new(uuid: u128, event_type: EventType, time: u64) -> (r: Event)
        ensures
            r.uuid == uuid,
            r.event_type == event_type,
            r.time == time,
    {
        Event { uuid, event_type, time }
    }
}

/// The report of a read that left `after` bytes in a buffer that held
/// `before`: the bytes that were added came in.
pub fn inbound(uuid: u128, before: usize, after: usize, time: u64) -> (r: Event)
    ensures
        r@ == (EventView {
            uuid,
            event_type: EventTypeView::Inbound(
                if after >= before {
                    (after - before) as usize
                } else {
                    0
                },
            ),
            time,
        }),
{
    let n = if after >= before {
        after - before
    } else {
        0
    };
    Event { uuid, event_type: EventType::Inbound(n), time }
}

/// The report of a write of `written` bytes.
pub fn outbound(uuid: u128, written: usize, time: u64) -> (r: Event)
    ensures
        r@ == (EventView { uuid, event_type: EventTypeView::Outbound(written), time }),
{
    Event { uuid, event_type: EventType::Outbound(written), time }
}

/// The report that a flow ended.
pub fn closed(uuid: u128, time: u64) -> (r: Event)
    ensures
        r@ == (EventView { uuid, event_type: EventTypeView::Closed, time }),
{
    Event { uuid, event_type: EventType::Closed, time }
}

} // verus!
