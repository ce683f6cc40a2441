//! The lines that the tool prints, and the address of the catalog.

use vstd::prelude::*;
use vstd::string::*;
use crate::countries::Country;
use crate::relay::ProbeResult;

verus! {

/// What is reported when no relay is left to rank.
pub const NO_SERVERS: &'static str = "No servers found";

/// The decimal digit for `d`.
pub open spec fn digit_char(d: nat) -> char {
    if d == 0 {
        '0'
    } else if d == 1 {
        '1'
    } else if d == 2 {
        '2'
    } else if d == 3 {
        '3'
    } else if d == 4 {
        '4'
    } else if d == 5 {
        '5'
    } else if d == 6 {
        '6'
    } else if d == 7 {
        '7'
    } else if d == 8 {
        '8'
    } else {
        '9'
    }
}

/// `n` in decimal notation, without leading zeros.
pub open spec fn decimal(n: nat) -> Seq<char>
    decreases n,
{
    if n < 10 {
        seq![digit_char(n)]
    } else {
        decimal(n / 10).push(digit_char(n % 10))
    }
}

/// The relay family of a result, or `unknown` where the catalog gave none.
pub open spec fn server_type_label(server_type: Option<String>) -> Seq<char> {
    match server_type {
        Some(family) => family@,
        None => "unknown"@,
    }
}

/// The address at which the provider serves the relays of a family.
pub open spec fn relay_url_spec(relay_family: Seq<char>) -> Seq<char> {
    "https://api.mullvad.net/www/relays/"@ + relay_family + "/"@
}

/// The line that lists a country.
pub open spec fn country_line_spec(country: (Seq<char>, Seq<char>)) -> Seq<char> {
    country.0 + " - "@ + country.1
}

/// The line above a ranking.
pub open spec fn header_line_spec(top_n: nat) -> Seq<char> {
    "Top "@ + decimal(top_n) + " results:"@
}

/// The line that shows a result; `mean` is its mean round-trip time as it
/// is to be shown.
pub open spec fn result_line_spec(result: ProbeResult, mean: Seq<char>) -> Seq<char> {
    "- "@ + result.relay_hostname@ + " ("@ + mean + "ms) "@ + decimal(
        result.network_port_speed as nat,
    ) + " Gbps "@ + server_type_label(result.server_type) + " "@ + result.city_name@ + ", "@
        + result.country_name@
}

fn digit_text(d: u64) -> (text: &'static str)
    requires
        d < 10,
    ensures
        text@ == seq![digit_char(d as nat)],
{
    proof {
        reveal_strlit("0");
        reveal_strlit("1");
        reveal_strlit("2");
        reveal_strlit("3");
        reveal_strlit("4");
        reveal_strlit("5");
        reveal_strlit("6");
        reveal_strlit("7");
        reveal_strlit("8");
        reveal_strlit("9");
    }
    let text = if d == 0 {
        "0"
    } else if d == 1 {
        "1"
    } else if d == 2 {
        "2"
    } else if d == 3 {
        "3"
    } else if d == 4 {
        "4"
    } else if d == 5 {
        "5"
    } else if d == 6 {
        "6"
    } else if d == 7 {
        "7"
    } else if d == 8 {
        "8"
    } else {
        "9"
    };
    text
}

/// `n` in decimal notation.
pub fn decimal_text(n: u64) -> (text: String)
    ensures
        text@ == decimal(n as nat),
    decreases n,
{
    if n < 10 {
        String::from_str(digit_text(n))
    } else {
        let mut text = decimal_text(n / 10);
        text.append(digit_text(n % 10));
        text
    }
}

/// The address at which the provider serves the relays of `relay_family`.
pub fn relay_url(relay_family: &str) -> (url: String)
    ensures
        url@ == relay_url_spec(relay_family@),
{
    let mut url = String::from_str("https://api.mullvad.net/www/relays/");
    url.append(relay_family);
    url.append("/");
    url
}

/// The line that lists `country`: its code, a dash, its name.
pub fn country_line(country: &Country) -> (line: String)
    ensures
        line@ == country_line_spec(country@),
{
    let mut line = country.code.clone();
    line.append(" - ");
    line.append(country.name.as_str());
    line
}

/// The line above a ranking that was asked to show `top_n` results.
pub fn header_line(top_n: usize) -> (line: String)
    ensures
        line@ == header_line_spec(top_n as nat),
{
    let mut line = String::from_str("Top ");
    line.append(decimal_text(top_n as u64).as_str());
    line.append(" results:");
    line
}

/// The line that shows `result`; `mean` is its mean round-trip time as it
/// is to be shown, with one decimal.
pub fn result_line(result: &ProbeResult, mean: &str) -> (line: String)
    ensures
        line@ == result_line_spec(*result, mean@),
{
    let mut line = String::from_str("- ");
    line.append(result.relay_hostname.as_str());
    line.append(" (");
    line.append(mean);
    line.append("ms) ");
    line.append(decimal_text(result.network_port_speed as u64).as_str());
    line.append(" Gbps ");
    match &result.server_type {
        Some(family) => line.append(family.as_str()),
        None => line.append("unknown"),
    }
    line.append(" ");
    line.append(result.city_name.as_str());
    line.append(", ");
    line.append(result.country_name.as_str());
    line
}

} // verus!
