use modem_scraper::{construct_loki_streams, FixedSizeSortedHashSet, LokiStreams};
use modem_scraper::codec::channel_line::{Channel, DownstreamChannel, Modulation, UpstreamChannel};
use modem_scraper::codec::log_line::{Level, LogEntry};
use modem_scraper::codec::timestamp::Timestamp;
use modem_scraper::loki::{check_after_epoch, forward_unseen, LokiStream};
use modem_scraper::points::{FieldValue, Point};

fn pair(a: &str, b: &str) -> (String, String) {
    (a.to_string(), b.to_string())
}

fn entry(secs: i64, level: Level, message: &str) -> LogEntry {
    LogEntry { timestamp: Timestamp { secs, nanos: 7 }, level, message: message.to_string() }
}

#[test]
fn records_are_grouped_by_severity() {
    let streams = construct_loki_streams(
        vec![pair("app", "modem_scraper")],
        vec![
            Some((Level::Info, 3, "i1".to_string())),
            None,
            Some((Level::Error, 1, "e1".to_string())),
            Some((Level::Info, 2, "i2".to_string())),
            Some((Level::Trace, 340282366920938463463374607431768211455, "t".to_string())),
        ],
    );
    assert_eq!(
        streams,
        LokiStreams {
            streams: vec![
                LokiStream {
                    stream: vec![pair("app", "modem_scraper"), pair("level", "error")],
                    values: vec![pair("1", "e1")],
                },
                LokiStream {
                    stream: vec![pair("app", "modem_scraper"), pair("level", "info")],
                    values: vec![pair("3", "i1"), pair("2", "i2")],
                },
                LokiStream {
                    stream: vec![pair("app", "modem_scraper"), pair("level", "trace")],
                    values: vec![pair("340282366920938463463374607431768211455", "t")],
                },
            ]
        }
    );
}

#[test]
fn no_records_make_no_streams() {
    assert_eq!(construct_loki_streams(vec![pair("a", "b")], vec![]), LokiStreams { streams: vec![] });
    assert_eq!(
        construct_loki_streams(vec![pair("a", "b")], vec![None, None]),
        LokiStreams { streams: vec![] }
    );
}

#[test]
fn level_label_replaces_one_that_was_given() {
    let streams = construct_loki_streams(
        vec![pair("level", "mine"), pair("app", "x"), pair("level", "again")],
        vec![
            Some((Level::Warn, 10, "w".to_string())),
            Some((Level::Debug, 11, "d".to_string())),
        ],
    );
    assert_eq!(
        streams.streams,
        vec![
            LokiStream {
                stream: vec![pair("app", "x"), pair("level", "warn")],
                values: vec![pair("10", "w")],
            },
            LokiStream {
                stream: vec![pair("app", "x"), pair("level", "debug")],
                values: vec![pair("11", "d")],
            },
        ]
    );
}

#[test]
fn records_seen_before_are_not_passed_on() {
    let mut seen: FixedSizeSortedHashSet<LogEntry> = FixedSizeSortedHashSet::with_capacity(30);
    let first = vec![entry(1, Level::Info, "a"), entry(2, Level::Error, "b"), entry(1, Level::Info, "a")];
    assert!(check_after_epoch(&first));
    assert_eq!(
        forward_unseen(&mut seen, &first),
        vec![
            Some((Level::Info, 1_000_000_007, "a".to_string())),
            Some((Level::Error, 2_000_000_007, "b".to_string())),
            None,
        ]
    );
    let second = vec![entry(2, Level::Error, "b"), entry(3, Level::Warn, "c")];
    assert_eq!(
        forward_unseen(&mut seen, &second),
        vec![None, Some((Level::Warn, 3_000_000_007, "c".to_string()))]
    );
    assert!(seen.contains(&entry(1, Level::Info, "a")));
    assert!(seen.contains(&entry(3, Level::Warn, "c")));
}

#[test]
fn records_that_left_the_set_are_passed_on_again() {
    let mut seen: FixedSizeSortedHashSet<LogEntry> = FixedSizeSortedHashSet::with_capacity(3);
    let entries: Vec<LogEntry> = (0..4).map(|i| entry(i, Level::Info, "m")).collect();
    assert_eq!(forward_unseen(&mut seen, &entries).iter().filter(|r| r.is_some()).count(), 4);
    assert!(!seen.contains(&entries[0]));
    assert!(!seen.contains(&entries[1]));
    assert!(seen.contains(&entries[2]));
    assert!(seen.contains(&entries[3]));
    let again = forward_unseen(&mut seen, &entries[..1].to_vec());
    assert_eq!(again, vec![Some((Level::Info, 7, "m".to_string()))]);
}

#[test]
fn records_before_1970_are_found() {
    assert!(check_after_epoch(&vec![]));
    assert!(check_after_epoch(&vec![entry(0, Level::Info, "m")]));
    assert!(!check_after_epoch(&vec![entry(0, Level::Info, "m"), entry(-1, Level::Info, "m")]));
}

#[test]
fn downstream_channel_as_a_point() {
    let channel = DownstreamChannel {
        channel_id: 20,
        modulation: Modulation::QAM256,
        lock_status: true,
        frequency: 507000000,
        power: 5,
        snr: 40,
        corrected: 12,
        uncorrectables: 3,
    };
    let expected = Point {
        measurement: "modem_downstream_channel".to_string(),
        tags: vec![pair("channel_id", "20"), pair("modulation", "QAM-256")],
        fields: vec![
            ("lock_status".to_string(), FieldValue::Boolean(true)),
            ("frequency".to_string(), FieldValue::UNumber(507000000)),
            ("power".to_string(), FieldValue::UNumber(5)),
            ("snr".to_string(), FieldValue::UNumber(40)),
            ("corrected".to_string(), FieldValue::UNumber(12)),
            ("uncorrectables".to_string(), FieldValue::UNumber(3)),
        ],
    };
    assert_eq!(channel.to_point(), expected);
    assert_eq!(Channel::Downstream(channel).to_point(), expected);
}

#[test]
fn upstream_channel_as_a_point() {
    let channel = UpstreamChannel {
        channel_id: 3,
        modulation: Modulation::Unknown,
        lock_status: false,
        frequency: 22800000,
        width: 6400000,
        power: "44.3".to_string(),
    };
    assert_eq!(
        Channel::Upstream(channel).to_point(),
        Point {
            measurement: "modem_upstream_channel".to_string(),
            tags: vec![pair("channel_id", "3"), pair("modulation", "Unknown")],
            fields: vec![
                ("lock_status".to_string(), FieldValue::Boolean(false)),
                ("frequency".to_string(), FieldValue::UNumber(22800000)),
                ("width".to_string(), FieldValue::UNumber(6400000)),
                ("power".to_string(), FieldValue::Decimal("44.3".to_string())),
            ],
        }
    );
    assert_eq!(Modulation::SCQAM.field_data(), FieldValue::Str("SC-QAM".to_string()));
}
