//! When a running agent republishes its capability card.
use vstd::prelude::*;

verus! {

/// What a heartbeat waits for.
#[derive(Debug, Clone, Copy)]
pub enum HeartbeatEvent {
    /// The interval has passed, or the heartbeat has just begun.
    Tick,
    /// The heartbeat was asked to stop.
    Shutdown,
}

/// What a heartbeat does next.
#[derive(Debug, Clone, Copy, PartialEq, Eq, Structural)]
pub enum HeartbeatAction {
    /// Publish the card, then wait for the next event whether or not that worked.
    Publish,
    /// Wait for the next event.
    Wait,
    /// End the task.
    Stop,
}

/// The state of a heartbeat.
#[derive(Debug, Clone, Copy)]
pub struct Heartbeat {
    pub skip_next_tick: bool,
    pub running: bool,
}

impl Heartbeat {
    /// The state after an event.
    pub open spec fn after(self, event: HeartbeatEvent) -> Heartbeat {
        match event {
            HeartbeatEvent::Tick => Heartbeat {
                skip_next_tick: self.skip_next_tick && !self.running,
                running: self.running,
            },
            HeartbeatEvent::Shutdown => Heartbeat { running: false, ..self },
        }
    }

    /// What an event leads to.
    pub open spec fn action(self, event: HeartbeatEvent) -> HeartbeatAction {
        if !self.running || event is Shutdown {
            HeartbeatAction::Stop
        } else if self.skip_next_tick {
            HeartbeatAction::Wait
        } else {
            HeartbeatAction::Publish
        }
    }

    /// How often the card is published over a row of events.
    pub open spec fn publications(self, events: Seq<HeartbeatEvent>) -> nat
        decreases events.len(),
    {
        if events.len() == 0 {
            0
        } else {
            let rest = self.after(events[0]).publications(events.drop_first());
            if self.action(events[0]) is Publish {
                rest + 1
            } else {
                rest
            }
        }
    }

    /// A heartbeat that publishes on every tick, or on every tick but the first.
    pub fn begin(skip_first_tick: bool) -> (heartbeat: Heartbeat)
        ensures
            heartbeat == (Heartbeat { skip_next_tick: skip_first_tick, running: true }),
    {
        Heartbeat { skip_next_tick: skip_first_tick, running: true }
    }

    /// Takes an event and says what to do.
    pub fn on_event(&mut self, event: HeartbeatEvent) -> (action: HeartbeatAction)
        ensures
            *final(self) == old(self).after(event),
            action == old(self).action(event),
    {
        match event {
            HeartbeatEvent::Shutdown => {
                self.running = false;
                HeartbeatAction::Stop
            },
            HeartbeatEvent::Tick => {
                if !self.running {
                    HeartbeatAction::Stop
                } else if self.skip_next_tick {
                    self.skip_next_tick = false;
                    HeartbeatAction::Wait
                } else {
                    HeartbeatAction::Publish
                }
            },
        }
    }
}

/// A running heartbeat publishes once per tick; where the first tick is skipped, once less.
pub proof fn every_tick_publishes(heartbeat: Heartbeat, events: Seq<HeartbeatEvent>)
    requires
        heartbeat.running,
        forall|i: int| 0 <= i < events.len() ==> #[trigger] events[i] is Tick,
    ensures
        heartbeat.publications(events) == (if heartbeat.skip_next_tick && events.len() > 0 {
            (events.len() - 1) as nat
        } else {
            events.len()
        }),
    decreases events.len(),
{
    if events.len() > 0 {
        assert(events[0] is Tick);
        let rest = events.drop_first();
        assert forall|i: int| 0 <= i < rest.len() implies #[trigger] rest[i] is Tick by {
            assert(rest[i] == events[i + 1]);
        }
        every_tick_publishes(heartbeat.after(events[0]), rest);
    }
}

/// After a shutdown nothing is published any more.
pub proof fn shutdown_ends_publishing(heartbeat: Heartbeat, events: Seq<HeartbeatEvent>)
    requires
        !heartbeat.running || (events.len() > 0 && events[0] is Shutdown),
    ensures
        heartbeat.publications(events) == 0,
    decreases events.len(),
{
    if events.len() > 0 {
        shutdown_ends_publishing(heartbeat.after(events[0]), events.drop_first());
    }
}

/// A heartbeat ends exactly with a shutdown: before it no tick ends it, a tick that is to be
/// skipped is waited out and the next one is not skipped, and every other tick publishes.
pub proof fn only_a_shutdown_ends_it(heartbeat: Heartbeat, event: HeartbeatEvent)
    ensures
        heartbeat.action(event) is Stop <==> !heartbeat.running || event is Shutdown,
        heartbeat.after(event).running <==> heartbeat.running && event is Tick,
        heartbeat.running && event is Tick ==> {
            &&& heartbeat.skip_next_tick ==> heartbeat.action(event) is Wait
            &&& !heartbeat.skip_next_tick ==> heartbeat.action(event) is Publish
            &&& !heartbeat.after(event).skip_next_tick
        },
{
}

} // verus!
