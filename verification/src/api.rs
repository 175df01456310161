//! A small facade over [`Endpoint`]: a handle that owns the endpoint
//! state, a bundle of endpoint and handler, and a library context that
//! creates such bundles.

use vstd::prelude::*;

use crate::endpoint::recv_effect;
use crate::endpoint::reset_effect;
use crate::endpoint::send_effect;
use crate::endpoint::spec_fresh_endpoint;
use crate::endpoint::update_effect;
use crate::endpoint::Endpoint;
use crate::endpoint::EndpointConfig;
use crate::endpoint::EndpointHandler;
use crate::error::ReliableError;

verus! {

/// Owns one endpoint's state and hands out references to it.
pub struct EndpointHandle {
    /// The endpoint behind this handle.
    pub endpoint: Endpoint,
}

impl EndpointHandle {
    /// The handle is as sound as the endpoint it owns.
    pub open spec fn wf(self) -> bool {
        self.endpoint.wf()
    }

    /// A handle over a fresh endpoint started at clock `time`.
    pub fn new(config: EndpointConfig, time: u64) -> (r: Self)
        requires
            config.valid(),
        ensures
            r.wf(),
            spec_fresh_endpoint(r.endpoint, config, time),
    {
        EndpointHandle { endpoint: Endpoint::new(config, time) }
    }

    /// Replaces the endpoint behind this handle.
    pub fn set(&mut self, endpoint: Endpoint)
        ensures
            final(self).endpoint == endpoint,
    {
        self.endpoint = endpoint;
    }

    /// Read access to the endpoint.
    pub fn ptr(&self) -> (r: &Endpoint)
        ensures
            *r == self.endpoint,
    {
        &self.endpoint
    }

    /// Write access to the endpoint.
    pub fn ptr_mut(&mut self) -> (r: &mut Endpoint)
        ensures
            *r == old(self).endpoint,
            *final(self) == (EndpointHandle { endpoint: *final(r) }),
    {
        &mut self.endpoint
    }
}

/// An endpoint bundled with the handler that takes its callbacks.
pub struct SimpleEndpoint<H: EndpointHandler> {
    /// Handle over the endpoint state.
    pub handle: EndpointHandle,
    /// Receives the endpoint's transmit and process callbacks.
    pub handler: H,
}

impl<H: EndpointHandler> SimpleEndpoint<H> {
    /// The bundle is as sound as the endpoint it owns.
    pub open spec fn wf(self) -> bool {
        self.handle.wf()
    }

    /// A fresh endpoint, started at clock zero, bundled with `handler`.
    pub fn new(config: EndpointConfig, handler: H) -> (r: Self)
        requires
            config.valid(),
        ensures
            r.wf(),
            spec_fresh_endpoint(r.handle.endpoint, config, 0),
            r.handler == handler,
    {
        SimpleEndpoint { handle: EndpointHandle::new(config, 0), handler }
    }

    /// The handle over this bundle's endpoint.
    pub fn handle(&self) -> (r: &EndpointHandle)
        ensures
            *r == self.handle,
    {
        &self.handle
    }

    /// Sends one payload through the bundled handler; see
    /// [`send_effect`] for exactly what changes.
    pub fn send(&mut self, packet: &[u8]) -> (r: Result<usize, ReliableError>)
        requires
            old(self).wf(),
        ensures
            final(self).wf(),
            send_effect(old(self).handle.endpoint, final(self).handle.endpoint, packet@, r),
    {
        self.handle.endpoint.send(packet, &mut self.handler)
    }

    /// Takes one inbound datagram through the bundled handler; see
    /// [`recv_effect`] for exactly what changes.
    pub fn recv(&mut self, packet: &[u8]) -> (r: Result<(), ReliableError>)
        requires
            old(self).wf(),
            packet@.len() >= 1,
        ensures
            final(self).wf(),
            recv_effect(old(self).handle.endpoint, final(self).handle.endpoint, packet@, r),
    {
        self.handle.endpoint.recv(packet, &mut self.handler)
    }

    /// Advances the endpoint's clock and quality estimates.
    pub fn update(&mut self, time: u64)
        requires
            old(self).wf(),
        ensures
            final(self).wf(),
            update_effect(old(self).handle.endpoint, final(self).handle.endpoint, time),
            final(self).handler == old(self).handler,
    {
        self.handle.endpoint.update(time);
    }

    /// Restarts the endpoint: empty buffers, empty ack list, sequence and
    /// quality estimates at zero.
    pub fn reset(&mut self)
        requires
            old(self).wf(),
        ensures
            final(self).wf(),
            reset_effect(old(self).handle.endpoint, final(self).handle.endpoint),
            final(self).handler == old(self).handler,
    {
        self.handle.endpoint.reset();
    }

    /// Empties the pending-ack list.
    pub fn clear_acks(&mut self)
        requires
            old(self).wf(),
        ensures
            final(self).wf(),
            final(self).handle.endpoint.acks@ == Seq::<u16>::empty(),
            *final(self) == (SimpleEndpoint {
                handle: EndpointHandle { endpoint: final(self).handle.endpoint },
                ..*old(self)
            }),
    {
        self.handle.endpoint.clear_acks();
    }

    /// The sequence the next `send` will assign.
    pub fn next_packet_sequence(&self) -> (r: u16)
        ensures
            r == self.handle.endpoint.sequence,
    {
        self.handle.endpoint.next_sequence()
    }

    /// Sequences newly acked by the peer, in discovery order.
    pub fn get_acks(&self) -> (r: Vec<u16>)
        ensures
            r@ == self.handle.endpoint.acks@,
    {
        vstd::slice::slice_to_vec(self.handle.endpoint.acks())
    }

    /// Smoothed round-trip time, in microseconds.
    pub fn current_rtt(&self) -> (r: u64)
        ensures
            r == self.handle.endpoint.rtt,
    {
        self.handle.endpoint.rtt()
    }

    /// Smoothed packet loss, in parts per ten thousand.
    pub fn current_packet_loss(&self) -> (r: u64)
        ensures
            r == self.handle.endpoint.packet_loss,
    {
        self.handle.endpoint.packet_loss()
    }

    /// Smoothed (sent, received, acked) bandwidth, in kilobits per second.
    pub fn bandwidth(&self) -> (r: (u64, u64, u64))
        ensures
            r == (
                self.handle.endpoint.sent_bandwidth,
                self.handle.endpoint.received_bandwidth,
                self.handle.endpoint.acked_bandwidth,
            ),
    {
        self.handle.endpoint.bandwidth()
    }
}

/// The library's entry point: a context from which endpoints are created.
pub struct Reliable;

impl Reliable {
    /// A fresh context.
    pub fn new() -> (r: Self)
        ensures
            r == Reliable,
    {
        Reliable
    }

    /// A fresh endpoint bundled with `handler`, exactly as
    /// [`SimpleEndpoint::new`] builds it.
    pub fn create_endpoint<H: EndpointHandler>(&self, config: EndpointConfig, handler: H) -> (r:
        SimpleEndpoint<H>)
        requires
            config.valid(),
        ensures
            r.wf(),
            spec_fresh_endpoint(r.handle.endpoint, config, 0),
            r.handler == handler,
    {
        SimpleEndpoint::new(config, handler)
    }
}

} // verus!
