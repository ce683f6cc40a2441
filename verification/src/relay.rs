//! The catalog's relay records and the result of a successful probe.

use vstd::prelude::*;
use crate::rtt::{finite_rtt, RTT_BITS_INFINITY};

verus! {

/// A status note attached to a relay by the provider.
#[derive(Clone, Debug)]
pub struct StatusMessage {
    pub message: String,
    pub timestamp: String,
}

/// One entry of the relay catalog.
#[derive(Clone, Debug)]
pub struct Relay {
    /// Unique within a catalog.
    pub hostname: String,
    /// Short lowercase code of the country.
    pub country_code: String,
    pub country_name: String,
    pub city_code: Option<String>,
    pub city_name: String,
    pub active: bool,
    pub owned: bool,
    pub provider: String,
    /// Dotted-quad address that probes are sent to.
    pub ipv4_addr_in: String,
    pub ipv6_addr_in: Option<String>,
    /// Port speed in gigabits per second.
    pub network_port_speed: u32,
    /// `true` when the relay boots from RAM, `false` when it boots from disk.
    pub stboot: bool,
    /// The relay family reported by the provider.
    pub server_type: Option<String>,
    pub status_messages: Option<Vec<StatusMessage>>,
    pub pubkey: Option<String>,
    pub multihop_port: Option<u16>,
    pub socks_name: Option<String>,
    pub socks_port: Option<u16>,
}

/// What a successful probe of a relay yields.
#[derive(Clone, Debug)]
pub struct ProbeResult {
    pub relay_hostname: String,
    pub city_name: String,
    pub country_name: String,
    pub server_type: Option<String>,
    pub ipv4_addr_in: String,
    /// Mean round-trip time in milliseconds, as the bit pattern of a
    /// double.
    pub mean_rtt_bits: u64,
    pub network_port_speed: u32,
}

/// The result that describes `relay` with the mean round-trip time `bits`.
pub open spec fn probe_result_of(relay: Relay, bits: u64) -> ProbeResult {
    ProbeResult {
        relay_hostname: relay.hostname,
        city_name: relay.city_name,
        country_name: relay.country_name,
        server_type: relay.server_type,
        ipv4_addr_in: relay.ipv4_addr_in,
        mean_rtt_bits: bits,
        network_port_speed: relay.network_port_speed,
    }
}

/// A copy of an optional string.
fn copy_opt_text(text: &Option<String>) -> (copy: Option<String>)
    ensures
        copy == *text,
{
    match text {
        Some(s) => Some(s.clone()),
        None => None,
    }
}

impl ProbeResult {
    /// The mean round-trip time is finite and not negative.
    pub open spec fn wf(&self) -> bool {
        finite_rtt(self.mean_rtt_bits)
    }

    /// Describes `relay` with the mean round-trip time `bits`; `None` when
    /// `bits` does not stand for a finite time that is not negative.
    pub fn new(relay: &Relay, bits: u64) -> (made: Option<ProbeResult>)
        ensures
            finite_rtt(bits) ==> made == Some(probe_result_of(*relay, bits)),
            !finite_rtt(bits) ==> made is None,
    {
        if bits < RTT_BITS_INFINITY {
            Some(
                ProbeResult {
                    relay_hostname: relay.hostname.clone(),
                    city_name: relay.city_name.clone(),
                    country_name: relay.country_name.clone(),
                    server_type: copy_opt_text(&relay.server_type),
                    ipv4_addr_in: relay.ipv4_addr_in.clone(),
                    mean_rtt_bits: bits,
                    network_port_speed: relay.network_port_speed,
                },
            )
        } else {
            None
        }
    }
}

} // verus!
