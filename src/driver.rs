use crate::relay::PublishedEvent;
use vstd::prelude::*;

verus! {

/// One event drained from a broker connection's event loop.
pub enum BrokerEvent {
    /// The broker delivered a publish.
    Publish(PublishedEvent),
    /// The broker acknowledged the session.
    ConnAck,
    /// The broker closed the session.
    Disconnect,
    /// The event loop reported an error; it will not recover by itself.
    Failed,
    /// Any other packet, incoming or outgoing.
    Other,
}

/// What the connection driver does with an event.
pub enum DriverStep {
    /// Hand the publish to the relay.
    Forward(PublishedEvent),
    /// Nothing to do; keep polling.
    Continue,
    /// The connection is over: mark it dead, close every subscriber, stop
    /// polling.
    Stop,
}

/// Whether `event` ends the connection: the broker closed it or the event
/// loop failed. No reconnection is attempted.
pub open spec fn ends_connection(event: BrokerEvent) -> bool {
    event is Disconnect || event is Failed
}

/// Classifies one event for the driver.
pub fn classify(event: BrokerEvent) -> (r: DriverStep)
    ensures
        event matches BrokerEvent::Publish(p) ==> r == DriverStep::Forward(p),
        ends_connection(event) ==> r is Stop,
        (event is ConnAck || event is Other) ==> r is Continue,
{
    match event {
        BrokerEvent::Publish(p) => DriverStep::Forward(p),
        BrokerEvent::ConnAck => DriverStep::Continue,
        BrokerEvent::Disconnect => DriverStep::Stop,
        BrokerEvent::Failed => DriverStep::Stop,
        BrokerEvent::Other => DriverStep::Continue,
    }
}

} // verus!
