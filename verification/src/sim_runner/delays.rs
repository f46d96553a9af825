//! The delays of a host on the way to and from its NIC.
use crate::network::Link;
use crate::EntityId;
use vstd::prelude::*;

verus! {

use crate::network::link::wire_time;

/// The delays of one host.
#[derive(Debug, Clone, Copy)]
pub struct HostDelay {
    /// What every packet costs before it is copied to the NIC.
    pub tx_fixed_ns: u64,
    /// The bandwidth at which packets are copied, in bits per second; zero if that takes no time.
    pub dma_bps: u64,
    /// What every packet costs when it comes in, besides the copying.
    pub rx_fixed_ns: u64,
}

/// No delays.
pub open spec fn no_delay() -> HostDelay {
    HostDelay { tx_fixed_ns: 0, dma_bps: 0, rx_fixed_ns: 0 }
}

impl HostDelay {
    /// How long it takes to copy a packet.
    pub open spec fn dma(self, bytes: u32) -> u64 {
        if self.dma_bps == 0 {
            0
        } else {
            wire_time(bytes, self.dma_bps)
        }
    }

    /// How long it takes until a packet that came in is processed.
    pub open spec fn rx(self, bytes: u32) -> u64 {
        self.rx_fixed_ns.saturating_add(self.dma(bytes))
    }
}

/// The delays of the hosts; hosts that are not listed have none.
#[derive(Debug, Clone)]
pub struct HostDelays {
    pub hosts: Vec<HostDelay>,
}

impl HostDelays {
    /// The delays of a host.
    pub open spec fn of(self, host: EntityId) -> HostDelay {
        delay_of(self.hosts@, host)
    }

    fn find(&self, host: EntityId) -> (d: HostDelay)
        ensures
            d == self.of(host),
    {
        if (host as u64) < self.hosts.len() as u64 {
            self.hosts[host as usize]
        } else {
            HostDelay { tx_fixed_ns: 0, dma_bps: 0, rx_fixed_ns: 0 }
        }
    }

    /// What every packet of a host costs before it is copied to the NIC.
    pub fn tx_fixed_overhead(&self, host: EntityId) -> (t: u64)
        ensures
            t == self.of(host).tx_fixed_ns,
    {
        self.find(host).tx_fixed_ns
    }

    /// How long it takes a host to copy a packet.
    pub fn tx_dma_time(&self, host: EntityId, bytes: u32) -> (t: u64)
        ensures
            t == self.of(host).dma(bytes),
    {
        let d = self.find(host);
        if d.dma_bps == 0 {
            0
        } else {
            let copier = Link {
                id: 0,
                from: host,
                to: host,
                bandwidth_bps: d.dma_bps,
                prop_delay_ns: 0,
            };
            copier.serialization_ns(bytes)
        }
    }

    /// How long it takes a host to process a packet that came in.
    pub fn rx_delay(&self, host: EntityId, bytes: u32) -> (t: u64)
        ensures
            t == self.of(host).rx(bytes),
    {
        let d = self.find(host);
        d.rx_fixed_ns.saturating_add(self.tx_dma_time(host, bytes))
    }
}

/// The delays of a host in a list of delays.
pub open spec fn delay_of(hosts: Seq<HostDelay>, host: EntityId) -> HostDelay {
    if host < hosts.len() {
        hosts[host as int]
    } else {
        no_delay()
    }
}

impl Default for HostDelays {
    fn default() -> (d: Self)
        ensures
            d.hosts@ == Seq::<HostDelay>::empty(),
    {
        HostDelays { hosts: Vec::new() }
    }
}

} // verus!
