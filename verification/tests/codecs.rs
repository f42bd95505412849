use modem_scraper::codec::channel_line::{
    channel_parser, check_decimal, classify_record, Channel, DownstreamChannel, Modulation,
    RecordShape, UpstreamChannel,
};
use modem_scraper::codec::duration::duration_deserializer;
use modem_scraper::codec::log_line::{log_parser, parse_log_record, Level, LogEntry};
use modem_scraper::codec::timestamp::{timestamp_deserializer, Timestamp};
use modem_scraper::error::Error;
use modem_scraper::pattern::{find_match, CharClass, Token};
use modem_scraper::text::{chars_of, decimal_of, parse_number, same_text, split_chars};

fn text(chars: &Vec<char>) -> String {
    chars.iter().collect()
}

#[test]
fn duration_is_counted_in_seconds() {
    assert_eq!(
        duration_deserializer("2 days 03h:04m:05s"),
        Ok(2 * 86400 + 3 * 3600 + 4 * 60 + 5)
    );
    assert_eq!(duration_deserializer("0 days 13h:14m:15s"), Ok(13 * 3600 + 14 * 60 + 15));
    assert_eq!(duration_deserializer("0 days 00h:00m:00s"), Ok(0));
}

#[test]
fn duration_without_days_is_malformed() {
    assert_eq!(
        duration_deserializer("2 03h:04m:05s"),
        Err(Error::MalformedField("2 03h:04m:05s".to_string()))
    );
    assert_eq!(duration_deserializer(""), Err(Error::MalformedField(String::new())));
    assert_eq!(
        duration_deserializer("x days 03h:04m:05s"),
        Err(Error::MalformedField("x days 03h:04m:05s".to_string()))
    );
}

#[test]
fn duration_is_found_inside_other_text() {
    assert_eq!(duration_deserializer("up 1 days 00h:00m:01s."), Ok(86401));
    assert_eq!(duration_deserializer("a12 days 1h:2m:3s"), Ok(12 * 86400 + 3723));
}

#[test]
fn duration_beyond_64_bits_is_malformed() {
    let huge = "99999999999999999999 days 00h:00m:00s";
    assert_eq!(duration_deserializer(huge), Err(Error::MalformedField(huge.to_string())));
    let sum = "213503982334602 days 00h:00m:00s";
    assert_eq!(duration_deserializer(sum), Err(Error::MalformedField(sum.to_string())));
    assert_eq!(
        duration_deserializer("213503982334601 days 00h:00m:00s"),
        Ok(213503982334601 * 86400)
    );
}

#[test]
fn clock_reading_is_taken_as_utc() {
    assert_eq!(
        timestamp_deserializer("Thu Mar  3 23:05:25 2005"),
        Ok(Timestamp { secs: 1109891125, nanos: 0 })
    );
    assert_eq!(
        timestamp_deserializer("Wed Feb  1 08:09:10 2023"),
        Ok(Timestamp { secs: 1675238950, nanos: 0 })
    );
}

#[test]
fn clock_reading_that_is_none_is_malformed() {
    assert_eq!(
        timestamp_deserializer("yesterday"),
        Err(Error::MalformedField("yesterday".to_string()))
    );
    assert_eq!(
        timestamp_deserializer("2005-03-03 23:05:25"),
        Err(Error::MalformedField("2005-03-03 23:05:25".to_string()))
    );
}

#[test]
fn epoch_nanos_of_a_timestamp() {
    assert_eq!(Timestamp { secs: 1, nanos: 5 }.epoch_nanos(), Some(1_000_000_005));
    assert_eq!(Timestamp { secs: 0, nanos: 0 }.epoch_nanos(), Some(0));
    assert_eq!(Timestamp { secs: -1, nanos: 0 }.epoch_nanos(), None);
    assert_eq!(Timestamp { secs: -1, nanos: 1_000_000_000 }.epoch_nanos(), Some(0));
    assert_eq!(
        Timestamp { secs: i64::MAX, nanos: 999_999_999 }.epoch_nanos(),
        Some(9_223_372_036_854_775_807_999_999_999)
    );
}

#[test]
fn log_lines_are_decoded() {
    let entries =
        log_parser("0^08:09:10^01/02/2023^5^hello}-{0^09:09:10^01/02/2023^3^world").unwrap();
    assert_eq!(
        entries,
        vec![
            LogEntry {
                timestamp: Timestamp { secs: 1675238950, nanos: 0 },
                level: Level::Info,
                message: "hello".to_string(),
            },
            LogEntry {
                timestamp: Timestamp { secs: 1675242550, nanos: 0 },
                level: Level::Error,
                message: "world".to_string(),
            },
        ]
    );
}

#[test]
fn log_levels_are_mapped() {
    let level = |digit: char| {
        let line = format!("0^00:00:00^01/01/1970^{}^m", digit);
        log_parser(&line).unwrap()[0].level
    };
    assert_eq!(level('3'), Level::Error);
    assert_eq!(level('4'), Level::Warn);
    assert_eq!(level('5'), Level::Info);
    assert_eq!(level('6'), Level::Debug);
    assert_eq!(level('0'), Level::Error);
    assert_eq!(level('9'), Level::Error);
}

#[test]
fn log_message_may_hold_the_field_separator() {
    let entries = log_parser("0^00:00:01^01/01/1970^4^a^b}c").unwrap();
    assert_eq!(entries.len(), 1);
    assert_eq!(entries[0].message, "a^b}c");
    assert_eq!(entries[0].timestamp, Timestamp { secs: 1, nanos: 0 });
    let two_lines = log_parser("0^00:00:01^01/01/1970^4^first\nsecond").unwrap();
    assert_eq!(two_lines[0].message, "first");
}

#[test]
fn log_messages_with_parts_of_the_record_separator_are_read_back() {
    let messages = ["ends in }", "}-", "-{ starts", "a}b-{c}", "{}-}{-}", ""];
    let written: Vec<String> = messages
        .iter()
        .enumerate()
        .map(|(i, message)| format!("0^00:00:0{}^01/01/1970^5^{}", i, message))
        .collect();
    let entries = log_parser(&written.join("}-{")).unwrap();
    assert_eq!(entries.len(), messages.len());
    for (i, entry) in entries.iter().enumerate() {
        assert_eq!(entry.message, messages[i]);
        assert_eq!(entry.level, Level::Info);
        assert_eq!(entry.timestamp, Timestamp { secs: i as i64, nanos: 0 });
    }
}

#[test]
fn log_line_names_the_offending_record() {
    assert_eq!(
        log_parser("0^08:09:10^01/02/2023^5^hello}-{nonsense}-{0^09:09:10^01/02/2023^3^w"),
        Err(Error::MalformedField("nonsense".to_string()))
    );
    assert_eq!(log_parser(""), Err(Error::MalformedField(String::new())));
    assert_eq!(
        log_parser("0^25:00:00^01/02/2023^5^late"),
        Err(Error::MalformedField("0^25:00:00^01/02/2023^5^late".to_string()))
    );
    assert_eq!(
        log_parser("0^08:09:10^31/02/2023^5^no such day"),
        Err(Error::MalformedField("0^08:09:10^31/02/2023^5^no such day".to_string()))
    );
}

#[test]
fn log_record_alone() {
    let record = chars_of("0^00:01:00^02/01/1970^6^x");
    assert_eq!(
        parse_log_record(&record),
        Some(LogEntry {
            timestamp: Timestamp { secs: 86400 + 60, nanos: 0 },
            level: Level::Debug,
            message: "x".to_string(),
        })
    );
    assert_eq!(parse_log_record(&chars_of("1^00:01:00^02/01/1970^6^x")), None);
    assert_eq!(
        LogEntry::from_parts('5', "m".to_string(), Some((7, 9))),
        Some(LogEntry {
            timestamp: Timestamp { secs: 7, nanos: 9 },
            level: Level::Info,
            message: "m".to_string(),
        })
    );
    assert_eq!(LogEntry::from_parts('5', "m".to_string(), None), None);
}

fn downstream_row() -> DownstreamChannel {
    DownstreamChannel {
        channel_id: 20,
        modulation: Modulation::QAM256,
        lock_status: true,
        frequency: 507000000,
        power: 5,
        snr: 40,
        corrected: 12,
        uncorrectables: 3,
    }
}

#[test]
fn downstream_row_is_decoded() {
    assert_eq!(
        channel_parser("1^Locked^QAM256^20^507000000^5^40^12^3^"),
        Ok(vec![Channel::Downstream(downstream_row())])
    );
}

#[test]
fn lock_token_other_than_locked_is_unlocked() {
    let channels = channel_parser("1^Unlocked^QAM256^20^507000000^5^40^12^3^").unwrap();
    assert_eq!(
        channels,
        vec![Channel::Downstream(DownstreamChannel { lock_status: false, ..downstream_row() })]
    );
    let channels = channel_parser("1^locked^QAM256^20^507000000^5^40^12^3^").unwrap();
    assert_eq!(
        channels,
        vec![Channel::Downstream(DownstreamChannel { lock_status: false, ..downstream_row() })]
    );
}

#[test]
fn modulation_tokens_are_mapped() {
    let modulation = |token: &str| {
        let row = format!("1^Locked^{}^20^507000000^5^40^12^3^", token);
        match &channel_parser(&row).unwrap()[0] {
            Channel::Downstream(c) => c.modulation,
            Channel::Upstream(c) => c.modulation,
        }
    };
    assert_eq!(modulation("QAM256"), Modulation::QAM256);
    assert_eq!(modulation("OFDM PLC"), Modulation::OFDMPLC);
    assert_eq!(modulation("QAM1024"), Modulation::Unknown);
    assert_eq!(modulation("none of these"), Modulation::Unknown);
    assert_eq!(Modulation::from_token(&chars_of("SC-QAM")), Modulation::SCQAM);
}

#[test]
fn upstream_row_is_decoded() {
    assert_eq!(
        channel_parser("1^Locked^SC-QAM^3^6400000^22800000^44.3^"),
        Ok(vec![Channel::Upstream(UpstreamChannel {
            channel_id: 3,
            modulation: Modulation::SCQAM,
            lock_status: true,
            frequency: 22800000,
            width: 6400000,
            power: "44.3".to_string(),
        })])
    );
}

#[test]
fn channel_table_holds_rows_of_both_kinds() {
    let channels = channel_parser(
        "1^Locked^QAM256^20^507000000^5^40^12^3^|+|2^Locked^SC-QAM^3^6400000^22800000^44^",
    )
    .unwrap();
    assert_eq!(channels.len(), 2);
    assert_eq!(channels[0], Channel::Downstream(downstream_row()));
    assert!(matches!(&channels[1], Channel::Upstream(c) if c.power == "44" && c.channel_id == 3));
}

#[test]
fn row_of_neither_shape_is_malformed() {
    assert_eq!(
        channel_parser("1^Locked^QAM256^20^"),
        Err(Error::MalformedField("1^Locked^QAM256^20^".to_string()))
    );
    assert_eq!(
        channel_parser("1^Locked^QAM256^20^507000000^5^40^12^3^|+|bad|+|worse"),
        Err(Error::MalformedField("bad".to_string()))
    );
    assert_eq!(channel_parser(""), Err(Error::MalformedField(String::new())));
}

#[test]
fn number_too_large_for_its_field_is_malformed() {
    let row = "1^Locked^QAM256^256^507000000^5^40^12^3^";
    assert_eq!(channel_parser(row), Err(Error::MalformedField(row.to_string())));
    let row = "1^Locked^QAM256^20^4294967296^5^40^12^3^";
    assert_eq!(channel_parser(row), Err(Error::MalformedField(row.to_string())));
    let row = "1^Locked^QAM256^255^4294967295^255^255^4294967295^4294967295^";
    assert!(channel_parser(row).is_ok());
}

#[test]
fn upstream_power_must_be_a_decimal_fraction() {
    let row = "1^Locked^SC-QAM^3^6400000^22800000^4.4.3^";
    assert_eq!(channel_parser(row), Err(Error::MalformedField(row.to_string())));
    let row = "1^Locked^SC-QAM^3^6400000^22800000^.^";
    assert_eq!(channel_parser(row), Err(Error::MalformedField(row.to_string())));
    assert!(check_decimal(&chars_of("44.3")));
    assert!(check_decimal(&chars_of("44.")));
    assert!(check_decimal(&chars_of(".5")));
    assert!(check_decimal(&chars_of("7")));
    assert!(!check_decimal(&chars_of(".")));
    assert!(!check_decimal(&chars_of("")));
    assert!(!check_decimal(&chars_of("1..2")));
    for accepted in ["44.3", "44.", ".5", "7"] {
        assert!(accepted.parse::<f64>().is_ok());
    }
    for refused in [".", "", "1..2"] {
        assert!(refused.parse::<f64>().is_err());
    }
}

#[test]
fn rows_are_told_apart() {
    assert!(matches!(
        classify_record(&chars_of("1^Locked^QAM256^20^507000000^5^40^12^3^")),
        RecordShape::Downstream(fields) if fields.len() == 8 && text(&fields[1]) == "QAM256"
    ));
    assert!(matches!(
        classify_record(&chars_of("1^Locked^SC-QAM^3^6400000^22800000^44.3^")),
        RecordShape::Upstream(fields) if fields.len() == 6 && text(&fields[5]) == "44.3"
    ));
    assert!(matches!(classify_record(&chars_of("1^Locked^")), RecordShape::NoMatch));
}

#[test]
fn modulation_names() {
    assert_eq!(Modulation::QAM256.to_string(), "QAM-256");
    assert_eq!(Modulation::OFDMPLC.to_string(), "OFDM-PLC");
    assert_eq!(Modulation::SCQAM.to_string(), "SC-QAM");
    assert_eq!(Modulation::Unknown.to_string(), "Unknown");
}

#[test]
fn text_is_cut_at_every_separator() {
    let pieces = |s: &str, sep: &str| -> Vec<String> {
        split_chars(&chars_of(s), &chars_of(sep)).iter().map(text).collect()
    };
    assert_eq!(pieces("a|+|b|+|c", "|+|"), vec!["a", "b", "c"]);
    assert_eq!(pieces("", "|+|"), vec![""]);
    assert_eq!(pieces("|+|", "|+|"), vec!["", ""]);
    assert_eq!(pieces("a|+||+|b", "|+|"), vec!["a", "", "b"]);
    assert_eq!(pieces("aaa", "aa"), vec!["", "a"]);
    assert_eq!(pieces("no separator", "}-{"), vec!["no separator"]);
    assert_eq!(pieces("x}-{y", "}-{"), "x}-{y".split("}-{").collect::<Vec<_>>());
}

#[test]
fn numbers_are_read_and_written_in_decimal() {
    assert_eq!(parse_number(&chars_of("0"), 255), Some(0));
    assert_eq!(parse_number(&chars_of("007"), 255), Some(7));
    assert_eq!(parse_number(&chars_of("255"), 255), Some(255));
    assert_eq!(parse_number(&chars_of("256"), 255), None);
    assert_eq!(parse_number(&chars_of(""), 255), None);
    assert_eq!(parse_number(&chars_of("+1"), 255), None);
    assert_eq!(parse_number(&chars_of("1a"), 255), None);
    assert_eq!(parse_number(&chars_of("18446744073709551615"), u64::MAX), Some(u64::MAX));
    assert_eq!(parse_number(&chars_of("18446744073709551616"), u64::MAX), None);
    assert_eq!(text(&decimal_of(0)), "0");
    assert_eq!(text(&decimal_of(1675238950123)), "1675238950123");
    assert_eq!(text(&decimal_of(u128::MAX)), u128::MAX.to_string());
}

#[test]
fn patterns_match_leftmost_and_longest() {
    let pattern = vec![Token::Run(CharClass::Digit), Token::Lit('-'), Token::Rest];
    let found = find_match(&pattern, &chars_of("ab12-cd\nef")).unwrap();
    assert_eq!(found.iter().map(text).collect::<Vec<_>>(), vec!["12", "cd"]);
    assert!(find_match(&pattern, &chars_of("ab12cd")).is_none());
    let skip = vec![Token::Skip(CharClass::Word), Token::One(CharClass::DigitDot)];
    let found = find_match(&skip, &chars_of("  x_1.")).unwrap();
    assert_eq!(found.iter().map(text).collect::<Vec<_>>(), vec!["."]);
    assert!(same_text(&chars_of("Locked"), "Locked"));
    assert!(!same_text(&chars_of("Locked"), "Locke"));
    assert!(CharClass::WordSpaceDash.holds('-'));
    assert!(!CharClass::WordSpace.holds('-'));
    assert!(!CharClass::Digit.holds('٣'));
    assert!(!CharClass::Word.holds('é'));
}

#[test]
fn durations_are_read_back_from_their_readings() {
    for (days, hours, minutes, seconds) in [
        (0u64, 0u64, 0u64, 0u64),
        (1, 2, 3, 4),
        (365, 23, 59, 59),
        (7, 100, 1000, 10000),
        (213503982334601, 0, 0, 0),
    ] {
        let reading = format!("{} days {}h:{}m:{}s", days, hours, minutes, seconds);
        assert_eq!(
            duration_deserializer(&reading),
            Ok(days * 86400 + hours * 3600 + minutes * 60 + seconds)
        );
    }
}

#[test]
fn channel_tables_are_read_back_from_their_rows() {
    let mut rows = Vec::new();
    let mut expected = Vec::new();
    for (index, (lock, modulation)) in
        [("Locked", "QAM256"), ("Not_Locked", "OFDM PLC"), ("x", "anything 1")].iter().enumerate()
    {
        let channel = DownstreamChannel {
            channel_id: (index * 100) as u8,
            modulation: Modulation::from_token(&chars_of(modulation)),
            lock_status: *lock == "Locked",
            frequency: 4294967295 - index as u32,
            power: index as u8,
            snr: 255,
            corrected: 0,
            uncorrectables: 7 * index as u32,
        };
        rows.push(format!(
            "{}^{}^{}^{}^{}^{}^{}^{}^{}^",
            index,
            lock,
            modulation,
            channel.channel_id,
            channel.frequency,
            channel.power,
            channel.snr,
            channel.corrected,
            channel.uncorrectables
        ));
        expected.push(Channel::Downstream(channel));
    }
    for (index, (modulation, power)) in
        [("SC-QAM", "44.3"), ("OFDM-A", "0"), ("a b-c", ".5")].iter().enumerate()
    {
        let channel = UpstreamChannel {
            channel_id: index as u8,
            modulation: Modulation::from_token(&chars_of(modulation)),
            lock_status: true,
            frequency: 22800000,
            width: 6400000 + index as u32,
            power: power.to_string(),
        };
        rows.push(format!(
            "{}^Locked^{}^{}^{}^{}^{}^",
            index, modulation, channel.channel_id, channel.width, channel.frequency, power
        ));
        expected.push(Channel::Upstream(channel));
    }
    assert_eq!(channel_parser(&rows.join("|+|")), Ok(expected.clone()));
    for (row, channel) in rows.iter().zip(expected) {
        assert_eq!(channel_parser(row), Ok(vec![channel]));
    }
}

#[test]
fn logs_are_read_back_from_their_records() {
    let records = [
        ("00:00:00", "01/01/1970", '3', "", 0i64, Level::Error),
        ("23:59:59", "31/12/1999", '4', "a ^ in the message", 946684799, Level::Warn),
        ("12:00:00", "29/02/2024", '6', "leap day-{", 1709208000, Level::Debug),
    ];
    let log: Vec<String> = records
        .iter()
        .map(|(time, date, level, message, _, _)| format!("0^{}^{}^{}^{}", time, date, level, message))
        .collect();
    let entries = log_parser(&log.join("}-{")).unwrap();
    assert_eq!(entries.len(), records.len());
    for (entry, (_, _, _, message, secs, level)) in entries.iter().zip(records) {
        assert_eq!(entry.timestamp, Timestamp { secs, nanos: 0 });
        assert_eq!(entry.level, level);
        assert_eq!(entry.message, message);
    }
}

#[test]
fn digits_and_words_are_ascii() {
    let reading = "٣ days 1h:2m:3s";
    assert_eq!(duration_deserializer(reading), Err(Error::MalformedField(reading.to_string())));
    let row = "1^Lockéd^QAM256^20^5^é^";
    assert_eq!(channel_parser(row), Err(Error::MalformedField(row.to_string())));
    assert_eq!(
        channel_parser("१1^Locked^QAM256^20^507000000^5^40^12^3^"),
        channel_parser("1^Locked^QAM256^20^507000000^5^40^12^3^")
    );
    let entries = log_parser("0^00:00:01^01/01/1970^4^grüße").unwrap();
    assert_eq!(entries[0].message, "grüße");
}
