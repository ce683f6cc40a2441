//! The user's filter over the catalog.

use vstd::prelude::*;
use crate::relay::{probe_result_of, ProbeResult, Relay};
use crate::rtt::finite_rtt;
use crate::text::{opt_text, text_eq};

verus! {

/// What a run mode asks of a relay: `ram` admits relays that boot from RAM,
/// `disk` those that boot from disk, any other mode admits both.
pub open spec fn run_mode_admits(stboot: bool, run_mode: Seq<char>) -> bool {
    if run_mode == "ram"@ {
        stboot
    } else if run_mode == "disk"@ {
        !stboot
    } else {
        true
    }
}

/// Whether the filter admits a relay: the country matches where one is
/// asked for, the port is fast enough and the run mode agrees.
pub open spec fn admits_spec(
    relay: Relay,
    country: Option<Seq<char>>,
    min_port_speed: u32,
    run_mode: Seq<char>,
) -> bool {
    &&& (country matches Some(code) ==> relay.country_code@ == code)
    &&& relay.network_port_speed >= min_port_speed
    &&& run_mode_admits(relay.stboot, run_mode)
}

/// The lowercase form of an ASCII letter; any other character is kept.
pub open spec fn ascii_lower(c: char) -> char {
    if 'A' <= c && c <= 'Z' {
        ((c as u8 + 32) as u8) as char
    } else {
        c
    }
}

/// `text` with each of the letters `A` to `Z` in lowercase.
pub open spec fn ascii_lowercase(text: Seq<char>) -> Seq<char> {
    text.map_values(|c: char| ascii_lower(c))
}

/// `str::to_ascii_lowercase` of the standard library: a copy of `text` in
/// which each of the ASCII letters `A` to `Z` is replaced by its lowercase
/// form and every other character is kept. The contract is taken from the
/// documentation of that method and is not proved here.
#[verifier::external_body]
fn lowercased(text: &str) -> (lower: String)
    ensures
        lower@ == ascii_lowercase(text@),
{
    text.to_ascii_lowercase()
}

/// What the user asks of a relay.
#[derive(Clone, Debug)]
pub struct FilterParams {
    /// Admit only relays of the country with this code.
    pub country: Option<String>,
    /// Admit only relays with at least this port speed, in gigabits per
    /// second.
    pub min_port_speed: u32,
    /// `ram`, `disk`, or anything else for both.
    pub run_mode: String,
}

impl FilterParams {
    /// Whether these parameters admit `relay`.
    pub open spec fn admits(&self, relay: Relay) -> bool {
        admits_spec(relay, opt_text(self.country), self.min_port_speed, self.run_mode@)
    }

    /// Filter parameters from what the user typed. Country codes in the
    /// catalog are lowercase, so the country is taken in lowercase.
    pub fn new(country: Option<String>, min_port_speed: u32, run_mode: String) -> (params:
        FilterParams)
        ensures
            opt_text(params.country) == match country {
                Some(code) => Some(ascii_lowercase(code@)),
                None => None,
            },
            params.min_port_speed == min_port_speed,
            params.run_mode == run_mode,
    {
        let country = match country {
            Some(code) => Some(lowercased(code.as_str())),
            None => None,
        };
        FilterParams { country, min_port_speed, run_mode }
    }

    /// Whether these parameters admit `relay`.
    pub fn check(&self, relay: &Relay) -> (ok: bool)
        ensures
            ok == self.admits(*relay),
    {
        admits(relay, &self.country, self.min_port_speed, self.run_mode.as_str())
    }
}

/// Whether a relay with the given boot medium passes the run mode.
pub fn check_run_mode(server_stboot: bool, run_mode: &str) -> (ok: bool)
    ensures
        ok == run_mode_admits(server_stboot, run_mode@),
{
    if text_eq(run_mode, "ram") {
        server_stboot
    } else if text_eq(run_mode, "disk") {
        !server_stboot
    } else {
        true
    }
}

/// Whether the filter admits `relay`.
pub fn admits(relay: &Relay, country: &Option<String>, min_port_speed: u32, run_mode: &str) -> (ok:
    bool)
    ensures
        ok == admits_spec(*relay, opt_text(*country), min_port_speed, run_mode@),
{
    let country_ok = match country {
        Some(code) => text_eq(relay.country_code.as_str(), code.as_str()),
        None => true,
    };
    country_ok && relay.network_port_speed >= min_port_speed && check_run_mode(
        relay.stboot,
        run_mode,
    )
}

/// What probing `server` comes to: a result when the filter admits the
/// relay and the probe reports a finite mean round-trip time that is not
/// negative, nothing otherwise.
pub open spec fn best_server(
    server: Relay,
    country: Option<Seq<char>>,
    port_speed: u32,
    run_mode: Seq<char>,
    probe: Option<u64>,
) -> Option<ProbeResult> {
    match probe {
        Some(bits) if admits_spec(server, country, port_speed, run_mode) && finite_rtt(bits) => Some(
            probe_result_of(server, bits),
        ),
        _ => None,
    }
}

/// The result for `server`, given what its probe reported: `probe` holds the
/// mean round-trip time as the bit pattern of a double, or `None` when the
/// relay was unreachable.
pub fn find_best_server(
    server: &Relay,
    country: &Option<String>,
    port_speed: u32,
    run_mode: &str,
    probe: Option<u64>,
) -> (found: Option<ProbeResult>)
    ensures
        found == best_server(*server, opt_text(*country), port_speed, run_mode@, probe),
{
    if admits(server, country, port_speed, run_mode) {
        match probe {
            Some(bits) => ProbeResult::new(server, bits),
            None => None,
        }
    } else {
        None
    }
}

/// The run mode decides by the boot medium alone: `ram` admits exactly the
/// relays that boot from RAM, `disk` exactly the others, and every other
/// mode admits all relays.
pub proof fn run_mode_decides_by_boot_medium(stboot: bool, run_mode: Seq<char>)
    ensures
        run_mode == "ram"@ ==> run_mode_admits(stboot, run_mode) == stboot,
        run_mode == "disk"@ ==> run_mode_admits(stboot, run_mode) == !stboot,
        run_mode != "ram"@ && run_mode != "disk"@ ==> run_mode_admits(stboot, run_mode),
{
    reveal_strlit("ram");
    reveal_strlit("disk");
    assert("ram"@.len() != "disk"@.len());
}

} // verus!
