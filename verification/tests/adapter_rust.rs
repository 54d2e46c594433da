use bencher::adapter::rust::{parse_metric, parse_number, parse_stdout, parse_u64, to_u64, try_to_u64, TestLine};
use bencher::adapter::units::{to_duration, Duration, Latency, Test, Units};

const SAMPLE: &str = "\nrunning 2 tests\ntest tests::ignored ... ignored\ntest tests::benchmark ... bench:       3,161 ns/iter (+/- 975)\n\ntest result: ok. 0 passed; 0 failed; 1 ignored; 1 measured; 0 filtered out; finished in 0.11s\n\n";

#[test]
fn test_adapter_rust() {
    let input = SAMPLE;
    let adapted = parse_stdout(input.as_bytes()).unwrap();
    println!("{:?}", adapted);
}

#[test]
fn sample_report_reads_both_tests() {
    let (consumed, lines) = parse_stdout(SAMPLE.as_bytes()).unwrap();
    let rest = &SAMPLE.as_bytes()[consumed..];
    assert!(rest.starts_with(b"test result: ok."));
    assert_eq!(
        lines,
        vec![
            TestLine { name: b"tests::ignored".to_vec(), test: Test::Ignored },
            TestLine {
                name: b"tests::benchmark".to_vec(),
                test: Test::Metric(Latency {
                    duration: Duration { nanos: 3161 },
                    variance: Duration { nanos: 975 },
                }),
            },
        ]
    );
}

#[test]
fn single_test_header_and_units() {
    let input = "\nrunning 1 test\ntest a::b ... bench:   12 μs/iter (+/- 1,000)\r\n\n";
    let (consumed, lines) = parse_stdout(input.as_bytes()).unwrap();
    assert_eq!(consumed, input.len());
    assert_eq!(lines.len(), 1);
    assert_eq!(
        lines[0].test,
        Test::Metric(Latency {
            duration: Duration { nanos: 12_000 },
            variance: Duration { nanos: 1_000_000 },
        })
    );
}

#[test]
fn unknown_unit_is_refused() {
    let input = "\nrunning 1 test\ntest a ... bench: 12 hours/iter (+/- 1)\n\n";
    assert_eq!(parse_stdout(input.as_bytes()), None);
}

#[test]
fn number_too_large_is_refused() {
    let input = "\nrunning 1 test\ntest a ... bench: 18446744073709551616 ns/iter (+/- 1)\n\n";
    assert_eq!(parse_stdout(input.as_bytes()), None);
}

#[test]
fn missing_closing_blank_line_is_refused() {
    let input = "\nrunning 1 test\ntest a ... ignored\n";
    assert_eq!(parse_stdout(input.as_bytes()), None);
}

#[test]
fn no_test_line_is_refused() {
    let input = "\nrunning 0 tests\n\n";
    assert_eq!(parse_stdout(input.as_bytes()), None);
}

#[test]
fn parse_u64_follows_std() {
    assert_eq!(parse_u64(b"3161"), Some(3161));
    assert_eq!(parse_u64(b"+7"), Some(7));
    assert_eq!(parse_u64(b""), None);
    assert_eq!(parse_u64(b"+"), None);
    assert_eq!(parse_u64(b"1a"), None);
    assert_eq!(parse_u64(b"18446744073709551615"), Some(u64::MAX));
    assert_eq!(parse_u64(b"18446744073709551616"), None);
}

#[test]
fn to_u64_joins_groups() {
    let groups: Vec<(&[u8], &[u8])> = vec![(b"3", b","), (b"161", b"")];
    assert_eq!(to_u64(groups), 3161);
}

#[test]
fn to_duration_scales_by_unit() {
    assert_eq!(to_duration(7, &Units::Nano), Duration { nanos: 7 });
    assert_eq!(to_duration(7, &Units::Micro), Duration { nanos: 7_000 });
    assert_eq!(to_duration(7, &Units::Milli), Duration { nanos: 7_000_000 });
    assert_eq!(to_duration(7, &Units::Sec), Duration { nanos: 7_000_000_000 });
    assert_eq!(to_duration(u64::MAX, &Units::Sec).nanos, u64::MAX as u128 * 1_000_000_000);
}

#[test]
fn units_from_abbreviation() {
    assert_eq!(Units::from("ns".as_bytes()), Units::Nano);
    assert_eq!(Units::from("μs".as_bytes()), Units::Micro);
    assert_eq!(Units::from("ms".as_bytes()), Units::Milli);
    assert_eq!(Units::from("s".as_bytes()), Units::Sec);
    assert_eq!(Units::parse(b"h"), None);
}

#[test]
fn text_after_a_report_does_not_change_it() {
    let first = parse_stdout(SAMPLE.as_bytes()).unwrap();
    let mut longer = SAMPLE.as_bytes().to_vec();
    longer.extend_from_slice(b"test more ... ignored\n\nrunning 9 tests\n");
    assert_eq!(parse_stdout(&longer), Some(first));
    let (consumed, _) = parse_stdout(SAMPLE.as_bytes()).unwrap();
    assert_eq!(parse_stdout(&SAMPLE.as_bytes()[..consumed]), parse_stdout(SAMPLE.as_bytes()));
}

#[test]
fn names_hold_no_space() {
    let (_, lines) = parse_stdout(SAMPLE.as_bytes()).unwrap();
    assert!(!lines.is_empty());
    assert!(lines.iter().all(|l| !l.name.is_empty() && !l.name.contains(&b' ')));
}

#[test]
fn number_groups_carry_their_separators() {
    let text = b"3,161 ns/iter";
    let (end, groups) = parse_number(text, 0).unwrap();
    assert_eq!(end, 5);
    let expected: Vec<(&[u8], &[u8])> = vec![(b"3", b","), (b"161", b" ")];
    assert_eq!(groups, expected);
    assert_eq!(to_u64(groups), 3161);
    assert_eq!(parse_number(b"x1", 0), None);
}

#[test]
fn decimal_numbers_read_back() {
    for n in [0u64, 7, 10, 3161, 1_000_000, u64::MAX] {
        let text = format!("{n} ");
        let (end, groups) = parse_number(text.as_bytes(), 0).unwrap();
        assert_eq!(end, text.len() - 1);
        assert_eq!(try_to_u64(&groups), Some(n));
    }
    let (_, groups) = parse_number(b"1,000,000)", 0).unwrap();
    assert_eq!(try_to_u64(&groups), Some(1_000_000));
}

#[test]
fn parse_metric_reads_a_known_unit() {
    let text = b"5 ms/iter (+/- 1)";
    assert_eq!(
        parse_metric(text, 0),
        Some((
            text.len(),
            Latency { duration: Duration { nanos: 5_000_000 }, variance: Duration { nanos: 1_000_000 } }
        ))
    );
    assert_eq!(parse_metric(b"5 ms per iter", 0), None);
}
