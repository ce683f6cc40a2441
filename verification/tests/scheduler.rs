use mullscan::filter::FilterParams;
use mullscan::relay::{ProbeResult, Relay};
use mullscan::report::NO_SERVERS;
use mullscan::scheduler::Scheduler;

fn relay(hostname: &str, country: &str, speed: u32, stboot: bool) -> Relay {
    Relay {
        hostname: hostname.to_string(),
        country_code: country.to_string(),
        country_name: format!("Country {}", country),
        city_code: None,
        city_name: "City".to_string(),
        active: true,
        owned: false,
        provider: "provider".to_string(),
        ipv4_addr_in: format!("192.0.2.{}", hostname.len()),
        ipv6_addr_in: None,
        network_port_speed: speed,
        stboot,
        server_type: None,
        status_messages: None,
        pubkey: None,
        multihop_port: None,
        socks_name: None,
        socks_port: None,
    }
}

fn no_filter() -> FilterParams {
    FilterParams::new(None, 0, "all".to_string())
}

fn hostnames(ranked: &[ProbeResult]) -> Vec<String> {
    ranked.iter().map(|r| r.relay_hostname.clone()).collect()
}

/// Probes every target with `stub`, in the order of `targets`, and ranks.
fn run(
    catalog: Vec<Relay>,
    filter: FilterParams,
    top_n: usize,
    stub: fn(&str) -> Option<f64>,
) -> (Vec<String>, Vec<ProbeResult>) {
    let mut scheduler = Scheduler::new(catalog, filter);
    let mut probed = Vec::new();
    for index in scheduler.targets() {
        let hostname = scheduler.relay(index).unwrap().hostname.clone();
        let outcome = stub(&hostname).map(f64::to_bits);
        probed.push(hostname);
        assert!(scheduler.record(index, outcome));
    }
    (probed, scheduler.finish(top_n))
}

fn abc_times(hostname: &str) -> Option<f64> {
    match hostname {
        "A" => Some(20.0),
        "B" => Some(10.0),
        "C" => Some(30.0),
        _ => None,
    }
}

fn b_fails(hostname: &str) -> Option<f64> {
    match hostname {
        "B" => None,
        other => abc_times(other),
    }
}

fn abc() -> Vec<Relay> {
    vec![relay("A", "us", 1, true), relay("B", "de", 2, false), relay("C", "se", 10, true)]
}

#[test]
fn three_relays_no_filter_top_two() {
    let (probed, ranked) = run(abc(), no_filter(), 2, abc_times);
    assert_eq!(probed, ["A", "B", "C"]);
    assert_eq!(hostnames(&ranked), ["B", "A"]);
}

#[test]
fn country_filter_leaves_the_one_relay_of_that_country() {
    let filter = FilterParams::new(Some("us".to_string()), 0, "all".to_string());
    let (probed, ranked) = run(abc(), filter, 2, abc_times);
    assert_eq!(probed, ["A"]);
    assert_eq!(hostnames(&ranked), ["A"]);
}

#[test]
fn a_relay_below_the_port_speed_never_appears() {
    let filter = FilterParams::new(None, 2, "all".to_string());
    let (probed, ranked) = run(abc(), filter, 0, abc_times);
    assert_eq!(probed, ["B", "C"]);
    assert_eq!(hostnames(&ranked), ["B", "C"]);
}

#[test]
fn a_failed_probe_leaves_the_relay_out() {
    let (probed, ranked) = run(abc(), no_filter(), 0, b_fails);
    assert_eq!(probed, ["A", "B", "C"]);
    assert_eq!(hostnames(&ranked), ["A", "C"]);
}

#[test]
fn run_mode_ram_probes_only_the_ram_relay() {
    let catalog = vec![relay("A", "us", 1, true), relay("B", "us", 1, false)];
    let filter = FilterParams::new(None, 0, "ram".to_string());
    let (probed, ranked) = run(catalog, filter, 5, abc_times);
    assert_eq!(probed, ["A"]);
    assert_eq!(hostnames(&ranked), ["A"]);
}

#[test]
fn an_empty_filtered_set_ranks_nothing() {
    let filter = FilterParams::new(Some("zz".to_string()), 0, "all".to_string());
    let (probed, ranked) = run(abc(), filter, 5, abc_times);
    assert!(probed.is_empty());
    assert!(ranked.is_empty());
    assert_eq!(NO_SERVERS, "No servers found");
}

#[test]
fn an_empty_catalog_ranks_nothing() {
    let mut scheduler = Scheduler::new(Vec::new(), no_filter());
    assert_eq!(scheduler.len(), 0);
    assert!(scheduler.targets().is_empty());
    assert!(scheduler.relay(0).is_none());
    assert!(!scheduler.record(0, Some(1.0f64.to_bits())));
    assert!(scheduler.finish(0).is_empty());
}

#[test]
fn the_ranking_does_not_depend_on_the_order_of_the_reports() {
    let orders: [[usize; 3]; 6] =
        [[0, 1, 2], [0, 2, 1], [1, 0, 2], [1, 2, 0], [2, 0, 1], [2, 1, 0]];
    for order in orders {
        let mut scheduler = Scheduler::new(abc(), no_filter());
        for index in order {
            let time = abc_times(&scheduler.relay(index).unwrap().hostname);
            assert!(scheduler.record(index, time.map(f64::to_bits)));
        }
        assert_eq!(scheduler.successes(), 3);
        assert_eq!(hostnames(&scheduler.finish(2)), ["B", "A"]);
    }
}

#[test]
fn a_report_is_taken_once() {
    let mut scheduler = Scheduler::new(abc(), no_filter());
    assert!(scheduler.record(1, Some(10.0f64.to_bits())));
    assert!(!scheduler.record(1, Some(5.0f64.to_bits())));
    assert_eq!(scheduler.targets(), [0, 2]);
    assert_eq!(scheduler.successes(), 1);
    let ranked = scheduler.finish(0);
    assert_eq!(hostnames(&ranked), ["B"]);
    assert_eq!(f64::from_bits(ranked[0].mean_rtt_bits), 10.0);
}

#[test]
fn a_report_for_a_relay_that_is_not_awaited_is_refused() {
    let filter = FilterParams::new(Some("us".to_string()), 0, "all".to_string());
    let mut scheduler = Scheduler::new(abc(), filter);
    assert_eq!(scheduler.targets(), [0]);
    assert!(!scheduler.record(1, Some(1.0f64.to_bits())));
    assert!(!scheduler.record(3, Some(1.0f64.to_bits())));
    assert!(!scheduler.record(usize::MAX, None));
    assert_eq!(scheduler.successes(), 0);
    assert!(scheduler.record(0, None));
    assert!(scheduler.targets().is_empty());
    assert!(scheduler.finish(0).is_empty());
}

#[test]
fn a_time_that_is_not_finite_counts_as_a_failed_probe() {
    let mut scheduler = Scheduler::new(abc(), no_filter());
    assert!(scheduler.record(0, Some(f64::INFINITY.to_bits())));
    assert!(scheduler.record(1, Some(f64::NAN.to_bits())));
    assert!(scheduler.record(2, Some((-3.0f64).to_bits())));
    assert_eq!(scheduler.successes(), 0);
    assert!(scheduler.finish(0).is_empty());
}

#[test]
fn with_top_zero_every_successful_probe_is_ranked() {
    let catalog: Vec<Relay> =
        (0..20).map(|i| relay(&format!("r{}", i), "us", i % 4, i % 2 == 0)).collect();
    let filter = FilterParams::new(None, 1, "all".to_string());
    let mut scheduler = Scheduler::new(catalog, filter);
    let targets = scheduler.targets();
    assert_eq!(targets.len(), 15);
    let mut succeeded = 0;
    for index in targets.iter().rev() {
        let outcome = if index % 3 == 0 { None } else { Some((100 - index) as f64) };
        succeeded += outcome.is_some() as usize;
        assert!(scheduler.record(*index, outcome.map(f64::to_bits)));
    }
    assert_eq!(scheduler.successes(), succeeded);
    let ranked = scheduler.finish(0);
    assert_eq!(ranked.len(), succeeded);
    for r in &ranked {
        assert!(r.network_port_speed >= 1);
    }
    for pair in ranked.windows(2) {
        assert!(f64::from_bits(pair[0].mean_rtt_bits) <= f64::from_bits(pair[1].mean_rtt_bits));
    }
}

#[test]
fn the_relay_of_a_target_is_the_relay_of_the_catalog() {
    let scheduler = Scheduler::new(abc(), no_filter());
    assert_eq!(scheduler.len(), 3);
    assert_eq!(scheduler.relay(2).unwrap().hostname, "C");
    assert_eq!(scheduler.relay(2).unwrap().ipv4_addr_in, "192.0.2.1");
    assert!(scheduler.relay(3).is_none());
}
