use mullscan::probe::{
    is_decimal_text, parse_ping_output, ping_arguments, select_mean, PING_PROGRAM, SUMMARY_PATTERN,
};

const REPLY: &str = "PING 192.0.2.1 (192.0.2.1) 56(84) bytes of data.\n\
64 bytes from 192.0.2.1: icmp_seq=1 ttl=56 time=9.87 ms\n\
64 bytes from 192.0.2.1: icmp_seq=2 ttl=56 time=10.9 ms\n\
64 bytes from 192.0.2.1: icmp_seq=3 ttl=56 time=10.8 ms\n\
\n\
--- 192.0.2.1 ping statistics ---\n\
3 packets transmitted, 3 received, 0% packet loss, time 402ms\n\
rtt min/avg/max/mdev = 9.870/10.523/10.900/0.462 ms\n";

#[test]
fn the_mean_is_the_second_field_of_the_summary() {
    assert_eq!(parse_ping_output(true, REPLY), Some("10.523".to_string()));
    assert_eq!(parse_ping_output(true, REPLY).unwrap().parse::<f64>(), Ok(10.523));
}

#[test]
fn a_failed_tool_means_unreachable() {
    assert_eq!(parse_ping_output(false, REPLY), None);
    assert_eq!(parse_ping_output(false, ""), None);
}

#[test]
fn output_without_a_summary_means_unreachable() {
    assert_eq!(parse_ping_output(true, ""), None);
    assert_eq!(parse_ping_output(true, "3 packets transmitted, 0 received, 100% packet loss"), None);
    assert_eq!(parse_ping_output(true, "rtt min/avg/max/mdev = "), None);
    assert_eq!(parse_ping_output(true, "rtt min/avg/max/mdev = 1.0"), None);
    assert_eq!(parse_ping_output(true, "rtt min/avg/max/mdev = 1.0/"), None);
    assert_eq!(parse_ping_output(true, "rtt min/avg/max/mdev = /2.0"), None);
    assert_eq!(parse_ping_output(true, "round-trip min/avg/max/stddev = 1.0/2.0/3.0/0.1 ms"), None);
}

#[test]
fn a_summary_anywhere_in_the_output_is_found() {
    assert_eq!(
        parse_ping_output(true, "xx rtt min/avg/max/mdev = 1/2/3/4 ms yy"),
        Some("2".to_string())
    );
    assert_eq!(parse_ping_output(true, "rtt min/avg/max/mdev = 0.1/0.25"), Some("0.25".to_string()));
    assert_eq!(parse_ping_output(true, "rtt min/avg/max/mdev = 7/8.x"), Some("8.".to_string()));
    assert_eq!(parse_ping_output(true, "rtt min/avg/max/mdev = 7/.5/9"), Some(".5".to_string()));
}

#[test]
fn the_first_summary_counts() {
    let twice = "rtt min/avg/max/mdev = 1/2/3/4 ms\nrtt min/avg/max/mdev = 5/6/7/8 ms\n";
    assert_eq!(parse_ping_output(true, twice), Some("2".to_string()));
}

#[test]
fn a_mean_that_is_no_number_means_unreachable() {
    assert_eq!(parse_ping_output(true, "rtt min/avg/max/mdev = 1.0/1.2.3/4"), None);
    assert_eq!(parse_ping_output(true, "rtt min/avg/max/mdev = 1.0/./4"), None);
    assert_eq!(parse_ping_output(true, "rtt min/avg/max/mdev = 1.0/../4"), None);
}

#[test]
fn decimal_numbers() {
    for text in ["0", "7", "10.523", "0.2", ".5", "5.", "000", "123456789012345678901234567890.5"] {
        assert!(is_decimal_text(text), "{}", text);
        assert!(text.parse::<f64>().is_ok(), "{}", text);
    }
}

#[test]
fn what_is_no_decimal_number() {
    for text in ["", ".", "..", "1.2.3", "1..2", "-1", "+1", "1e5", "1,5", " 1", "1 ", "inf", "٣", "1.5ms", "½"] {
        assert!(!is_decimal_text(text), "{}", text);
    }
}

#[test]
fn the_mean_is_selected_from_what_the_search_found() {
    assert_eq!(select_mean(Ok(Some("10.5".to_string()))), Some("10.5".to_string()));
    assert_eq!(select_mean(Ok(Some("1.2.3".to_string()))), None);
    assert_eq!(select_mean(Ok(Some(String::new()))), None);
    assert_eq!(select_mean(Ok(None)), None);
    assert_eq!(select_mean(Err(regex::Error::Syntax("unclosed group".to_string()))), None);
    assert_eq!(select_mean(Err(regex::Error::CompiledTooBig(10))), None);
}

#[test]
fn the_summary_pattern_is_a_regular_expression_with_one_group() {
    let re = regex::Regex::new(SUMMARY_PATTERN).unwrap();
    assert_eq!(re.captures_len(), 2);
    assert_eq!(SUMMARY_PATTERN, "rtt min/avg/max/mdev = [0-9.]+/([0-9.]+)");
}

#[test]
fn the_tool_is_told_the_count_the_interval_and_the_address() {
    assert_eq!(PING_PROGRAM, "ping");
    assert_eq!(ping_arguments("192.0.2.7", 3, "0.2"), ["-c", "3", "-i", "0.2", "192.0.2.7"]);
    assert_eq!(ping_arguments("10.0.0.1", 0, "1"), ["-c", "0", "-i", "1", "10.0.0.1"]);
    assert_eq!(
        ping_arguments("198.51.100.255", 120, &1.5f64.to_string()),
        ["-c", "120", "-i", "1.5", "198.51.100.255"]
    );
}
