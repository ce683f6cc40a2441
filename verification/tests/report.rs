use mullscan::relay::ProbeResult;
use mullscan::report::{decimal_text, header_line, relay_url, result_line, NO_SERVERS};

fn result(server_type: Option<&str>) -> ProbeResult {
    ProbeResult {
        relay_hostname: "se-got-wg-001".to_string(),
        city_name: "Gothenburg".to_string(),
        country_name: "Sweden".to_string(),
        server_type: server_type.map(str::to_string),
        ipv4_addr_in: "192.0.2.7".to_string(),
        mean_rtt_bits: 12.34f64.to_bits(),
        network_port_speed: 10,
    }
}

#[test]
fn numbers_in_decimal_notation() {
    assert_eq!(decimal_text(0), "0");
    assert_eq!(decimal_text(5), "5");
    assert_eq!(decimal_text(9), "9");
    assert_eq!(decimal_text(10), "10");
    assert_eq!(decimal_text(1234567890), "1234567890");
    assert_eq!(decimal_text(u64::MAX), "18446744073709551615");
    for n in 0..2000u64 {
        assert_eq!(decimal_text(n), n.to_string());
    }
}

#[test]
fn the_catalog_address_names_the_family() {
    assert_eq!(relay_url("all"), "https://api.mullvad.net/www/relays/all/");
    assert_eq!(relay_url("wireguard"), "https://api.mullvad.net/www/relays/wireguard/");
    assert_eq!(relay_url("openvpn"), "https://api.mullvad.net/www/relays/openvpn/");
    assert_eq!(relay_url("bridge"), "https://api.mullvad.net/www/relays/bridge/");
    assert_eq!(relay_url("other/kind"), "https://api.mullvad.net/www/relays/other/kind/");
    assert_eq!(relay_url(""), "https://api.mullvad.net/www/relays//");
}

#[test]
fn the_header_names_the_count_that_was_asked_for() {
    assert_eq!(header_line(5), "Top 5 results:");
    assert_eq!(header_line(0), "Top 0 results:");
    assert_eq!(header_line(120), "Top 120 results:");
}

#[test]
fn a_result_line_with_a_family() {
    let line = result_line(&result(Some("wireguard")), "12.3");
    assert_eq!(line, "- se-got-wg-001 (12.3ms) 10 Gbps wireguard Gothenburg, Sweden");
}

#[test]
fn a_result_line_without_a_family() {
    let shown = format!("{:.1}", f64::from_bits(result(None).mean_rtt_bits));
    let line = result_line(&result(None), &shown);
    assert_eq!(line, "- se-got-wg-001 (12.3ms) 10 Gbps unknown Gothenburg, Sweden");
}

#[test]
fn the_message_for_an_empty_ranking() {
    assert_eq!(NO_SERVERS, "No servers found");
}
