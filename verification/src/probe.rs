//! Calling the probing tool and reading what it reports.
//!
//! A probe is a run of the system's `ping`. On success its output ends in a
//! summary line of the form `rtt min/avg/max/mdev = A/B/C/D`, in which `B`
//! is the mean round-trip time in milliseconds. Running the tool is left to
//! the caller.

use vstd::prelude::*;
use vstd::string::*;
use vstd::utf8::is_ascii_chars;
use crate::report::{decimal, decimal_text};
use crate::text::opt_text;

verus! {

/// The program that probes.
pub const PING_PROGRAM: &'static str = "ping";

/// The text of each string of a list.
pub open spec fn texts(list: Seq<String>) -> Seq<Seq<char>> {
    list.map_values(|s: String| s@)
}

/// The arguments for a probe of `ipv4`: `count` echo requests, `interval`
/// seconds apart.
pub open spec fn ping_arguments_spec(ipv4: Seq<char>, count: nat, interval: Seq<char>) -> Seq<
    Seq<char>,
> {
    seq!["-c"@, decimal(count), "-i"@, interval, ipv4]
}

/// The arguments with which the probing tool sends `count` echo requests
/// to `ipv4`, `interval` seconds apart; `interval` is the number as the tool
/// is to read it.
pub fn ping_arguments(ipv4: &str, count: usize, interval: &str) -> (arguments: Vec<String>)
    ensures
        texts(arguments@) == ping_arguments_spec(ipv4@, count as nat, interval@),
{
    let mut arguments: Vec<String> = Vec::new();
    arguments.push(String::from_str("-c"));
    arguments.push(decimal_text(count as u64));
    arguments.push(String::from_str("-i"));
    arguments.push(String::from_str(interval));
    arguments.push(String::from_str(ipv4));
    assert(texts(arguments@) =~= ping_arguments_spec(ipv4@, count as nat, interval@));
    arguments
}

/// The error of `regex::Regex::new`. Nothing is known of what it holds.
#[verifier::external_type_specification]
#[verifier::external_body]
pub struct ExRegexError(regex::Error);

/// What the summary line looks like; its first group is the mean.
pub const SUMMARY_PATTERN: &'static str = "rtt min/avg/max/mdev = [0-9.]+/([0-9.]+)";

/// What `pattern` finds in `haystack`, as the `regex` crate has it: `None`
/// where `pattern` does not compile to a regular expression; else
/// `Some(None)` where the expression matches nowhere, or has no first
/// group, or that group takes no part in the first match; else the text
/// that this group matched.
pub uninterp spec fn first_group(pattern: Seq<char>, haystack: Seq<char>) -> Option<
    Option<Seq<char>>,
>;

/// `regex::Regex::new` on `pattern`, then `Regex::captures` on `haystack`
/// and `Captures::get(1)`: the text of the first group at the first match.
/// Compilation and search depend on the two strings alone, so the outcome
/// is given the name `first_group`; nothing more is claimed of it, and
/// nothing of it is proved here.
#[verifier::external_body]
fn capture_first_group(pattern: &str, haystack: &str) -> (found: Result<
    Option<String>,
    regex::Error,
>)
    ensures
        match found {
            Ok(text) => first_group(pattern@, haystack@) == Some(opt_text(text)),
            Err(_) => first_group(pattern@, haystack@) is None,
        },
{
    let re = regex::Regex::new(pattern)?;
    Ok(re.captures(haystack).and_then(|groups| groups.get(1)).map(|m| m.as_str().to_string()))
}

/// A decimal digit.
pub open spec fn is_digit(c: char) -> bool {
    '0' <= c && c <= '9'
}

/// A number in decimal notation: digits with at most one point among them,
/// and at least one digit.
pub open spec fn is_decimal(text: Seq<char>) -> bool {
    &&& forall|i: int| 0 <= i < text.len() ==> is_digit(#[trigger] text[i]) || text[i] == '.'
    &&& exists|i: int| 0 <= i < text.len() && is_digit(#[trigger] text[i])
    &&& forall|i: int, j: int|
        0 <= i < j < text.len() ==> !(#[trigger] text[i] == '.' && #[trigger] text[j] == '.')
}

/// The mean round-trip time that a search for the summary line yields: the
/// text of the first group where it is a decimal number.
pub open spec fn mean_of(captured: Option<Option<Seq<char>>>) -> Option<Seq<char>> {
    match captured {
        Some(Some(text)) if is_decimal(text) => Some(text),
        _ => None,
    }
}

/// What a probe reports: the mean round-trip time in the summary line of
/// its output, where the tool succeeded and printed one.
pub open spec fn reported_mean(success: bool, output: Seq<char>) -> Option<Seq<char>> {
    if success {
        mean_of(first_group(SUMMARY_PATTERN@, output))
    } else {
        None
    }
}

/// Whether `text` is a number in decimal notation.
pub fn is_decimal_text(text: &str) -> (ok: bool)
    ensures
        ok == is_decimal(text@),
{
    if !text.is_ascii() {
        return false;
    }
    proof {
        is_ascii_spec_bytes(text);
    }
    let bytes = text.as_bytes();
    let mut seen_digit = false;
    let mut seen_point = false;
    let mut i: usize = 0;
    while i < bytes.len()
        invariant
            i <= bytes.len(),
            bytes.len() == text@.len(),
            is_ascii_chars(text@),
            forall|j: int| 0 <= j < bytes.len() ==> bytes@[j] == #[trigger] text@[j] as u8,
            forall|j: int| 0 <= j < i ==> is_digit(#[trigger] text@[j]) || text@[j] == '.',
            seen_digit == exists|j: int| 0 <= j < i && is_digit(#[trigger] text@[j]),
            seen_point == exists|j: int| 0 <= j < i && #[trigger] text@[j] == '.',
            forall|j: int, k: int|
                0 <= j < k < i ==> !(#[trigger] text@[j] == '.' && #[trigger] text@[k] == '.'),
        decreases bytes.len() - i,
    {
        let b = bytes[i];
        proof {
            assert('\0' <= text@[i as int] <= '\u{7f}');
        }
        if b == 46 {
            if seen_point {
                return false;
            }
            seen_point = true;
        } else if 48 <= b && b <= 57 {
            seen_digit = true;
        } else {
            return false;
        }
        i += 1;
    }
    seen_digit
}

/// The mean round-trip time in what a search for the summary line came to:
/// the text of the first group where the search found one and it is a
/// decimal number, nothing otherwise.
pub fn select_mean(captured: Result<Option<String>, regex::Error>) -> (mean: Option<String>)
    ensures
        opt_text(mean) == match captured {
            Ok(Some(text)) if is_decimal(text@) => Some(text@),
            _ => None,
        },
{
    match captured {
        Ok(Some(text)) => {
            if is_decimal_text(text.as_str()) {
                Some(text)
            } else {
                None
            }
        },
        _ => None,
    }
}

/// Reads the report of a probe: `success` says whether the tool exited with
/// status zero, `output` is what it printed. Returns the mean round-trip
/// time in milliseconds as the tool wrote it, or `None` where the relay is
/// to be taken as unreachable: the tool failed, or its output holds no
/// summary line with a decimal mean.
pub fn parse_ping_output(success: bool, output: &str) -> (mean: Option<String>)
    ensures
        opt_text(mean) == reported_mean(success, output@),
{
    if success {
        select_mean(capture_first_group(SUMMARY_PATTERN, output))
    } else {
        None
    }
}

} // verus!
