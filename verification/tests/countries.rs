use mullscan::countries::{list_countries, Country};
use mullscan::relay::Relay;
use mullscan::report::country_line;

fn relay(hostname: &str, code: &str, name: &str) -> Relay {
    Relay {
        hostname: hostname.to_string(),
        country_code: code.to_string(),
        country_name: name.to_string(),
        city_code: None,
        city_name: "City".to_string(),
        active: true,
        owned: false,
        provider: "provider".to_string(),
        ipv4_addr_in: "192.0.2.1".to_string(),
        ipv6_addr_in: None,
        network_port_speed: 1,
        stboot: false,
        server_type: None,
        status_messages: None,
        pubkey: None,
        multihop_port: None,
        socks_name: None,
        socks_port: None,
    }
}

fn pairs(list: &[Country]) -> Vec<(String, String)> {
    list.iter().map(|c| (c.code.clone(), c.name.clone())).collect()
}

fn pair(code: &str, name: &str) -> (String, String) {
    (code.to_string(), name.to_string())
}

#[test]
fn each_country_is_listed_once_in_order_of_name() {
    let catalog = vec![
        relay("se1", "se", "Sweden"),
        relay("de1", "de", "Germany"),
        relay("se2", "se", "Sweden"),
        relay("us1", "us", "USA"),
        relay("at1", "at", "Austria"),
        relay("de2", "de", "Germany"),
        relay("se3", "se", "Sweden"),
    ];
    assert_eq!(
        pairs(&list_countries(&catalog)),
        [pair("at", "Austria"), pair("de", "Germany"), pair("se", "Sweden"), pair("us", "USA")]
    );
}

#[test]
fn an_empty_catalog_has_no_countries() {
    assert!(list_countries(&Vec::new()).is_empty());
}

#[test]
fn the_same_code_with_another_name_is_another_country() {
    let catalog = vec![
        relay("a", "gb", "UK"),
        relay("b", "gb", "Great Britain"),
        relay("c", "uk", "UK"),
        relay("d", "gb", "UK"),
    ];
    assert_eq!(
        pairs(&list_countries(&catalog)),
        [pair("gb", "Great Britain"), pair("gb", "UK"), pair("uk", "UK")]
    );
}

#[test]
fn countries_of_the_same_name_keep_the_order_of_the_catalog() {
    let catalog = vec![
        relay("a", "zz", "Same"),
        relay("b", "aa", "Same"),
        relay("c", "mm", "Same"),
        relay("d", "bb", "Other"),
    ];
    assert_eq!(
        pairs(&list_countries(&catalog)),
        [pair("bb", "Other"), pair("zz", "Same"), pair("aa", "Same"), pair("mm", "Same")]
    );
}

#[test]
fn names_are_ordered_as_strings_are() {
    let names = ["Åland", "Zambia", "austria", "Austria", "", "Côte d'Ivoire", "Cuba", "Z"];
    let catalog: Vec<Relay> =
        names.iter().enumerate().map(|(i, n)| relay("h", &format!("c{}", i), n)).collect();
    let listed: Vec<String> = list_countries(&catalog).into_iter().map(|c| c.name).collect();
    let mut expected: Vec<String> = names.iter().map(|n| n.to_string()).collect();
    expected.sort();
    assert_eq!(listed, expected);
}

#[test]
fn a_country_is_printed_as_code_dash_name() {
    let catalog = vec![relay("se1", "se", "Sweden"), relay("at1", "at", "Austria")];
    let lines: Vec<String> = list_countries(&catalog).iter().map(country_line).collect();
    assert_eq!(lines, ["at - Austria", "se - Sweden"]);
}
