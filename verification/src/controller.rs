//! The controller: it holds the configuration that runs and the events
//! that the flows report, for whoever looks at the router from outside.

use crate::address::Address;
use crate::config::Config;
use crate::error::Error;
use crate::net_ref::NetHandle;
use crate::rabbit_digger::event::{Event, EventType, EventTypeView, EventView};
use vstd::prelude::*;

verus! {

/// What the controller holds.
#[derive(Debug)]
pub struct Inner {
    pub config: Option<Config>,
    pub events: Vec<Event>,
}

/// What is known of a task.
#[derive(Clone, Debug)]
pub struct TaskInfo {
    pub name: String,
}

/// The controller.
#[derive(Debug)]
pub struct Controller {
    pub inner: Inner,
}

/// A net whose connections are reported to the controller.
#[derive(Clone, Copy, Debug, PartialEq, Eq, Structural)]
pub struct ControllerNet {
    pub net: NetHandle,
}

impl ControllerNet {
    /// The report of a connection to `addr` under the identifier `uuid`.
    pub fn tcp_connect(&self, uuid: u128, addr: &Address, time: u64) -> (r: Event)
        ensures
            r@ == (EventView { uuid, event_type: EventTypeView::NewTcp(addr@, Seq::empty()), time }),
    {
        let chain: Vec<String> = Vec::new();
        assert(crate::visitor::names_of(chain@) =~= Seq::<Seq<char>>::empty());
        Event { uuid, event_type: EventType::NewTcp(addr.clone(), chain), time }
    }
}

impl Inner {
    /// The configuration that runs, if one does.
    pub fn config(&self) -> (r: Option<&Config>)
        ensures
            match (r, self.config) {
                (Some(a), Some(b)) => *a == b,
                (None, None) => true,
                _ => false,
            },
    {
        self.config.as_ref()
    }
}

impl Controller {
    /// A controller without a configuration and without events.
    pub fn new() -> (r: Controller)
        ensures
            r.inner.config is None,
            r.inner.events@.len() == 0,
    {
        Controller { inner: Inner { config: None, events: Vec::new() } }
    }

    /// The net `net`, with its connections reported.
    pub fn get_net(&self, net: NetHandle) -> (r: ControllerNet)
        ensures
            r.net == net,
    {
        ControllerNet { net }
    }

    /// Takes the events that were reported, behind those that are held.
    pub fn process(&mut self, events: Vec<Event>)
        ensures
            final(self).inner.config == old(self).inner.config,
            final(self).inner.events@ == old(self).inner.events@ + events@,
    {
        let mut events = events;
        self.inner.events.append(&mut events);
    }

    /// Notes the configuration that runs. A controller holds one
    /// configuration at a time.
    pub fn update_config(&mut self, config: Config) -> (r: Result<(), Error>)
        ensures
            final(self).inner.events == old(self).inner.events,
            match old(self).inner.config {
                Some(_) => {
                    &&& final(self).inner.config == old(self).inner.config
                    &&& r matches Err(Error::Other(msg))
                    &&& msg@ == "this controller already has a config"@
                },
                None => final(self).inner.config == Some(config) && r is Ok,
            },
    {
        if self.inner.config.is_some() {
            return Err(Error::Other("this controller already has a config".to_string()));
        }
        self.inner.config = Some(config);
        Ok(())
    }

    /// Forgets the configuration: nothing runs any more.
    pub fn remove_config(&mut self) -> (r: Result<(), Error>)
        ensures
            final(self).inner.events == old(self).inner.events,
            final(self).inner.config is None,
            match old(self).inner.config {
                Some(_) => r is Ok,
                None => r matches Err(Error::Other(msg)) && msg@ == "failed to remove config from controller"@,
            },
    {
        if self.inner.config.is_none() {
            return Err(Error::Other("failed to remove config from controller".to_string()));
        }
        self.inner.config = None;
        Ok(())
    }

    /// What the controller holds.
    pub fn lock(&self) -> (r: &Inner)
        ensures
            *r == self.inner,
    {
        &self.inner
    }
}

} // verus!
