//! The modem's event log: records joined by `}-{`, each of the shape
//! `0^<time>^<date>^<level>^<message>`.

use crate::codec::{decode_records, lemma_decode_all, lemma_decode_prefix_error};
use crate::codec::timestamp::{datetime_parse, parse_datetime, timestamp_from, Timestamp};
use crate::dedup::DedupKey;
use crate::error::Error;
use crate::pattern::{
    all_fit, all_in, capture_count, find_match, first_match, kept_parts, lemma_first_match_count,
    lemma_first_match_written, lemma_written_literals, lemma_written_part, separated, written,
    CharClass, Token,
};
use crate::text::{
    chars_of, cut_only_after, free_of, is_digit, joined, joined_with, lemma_joined,
    lemma_split_round_trip, split, split_chars, string_of, texts, without,
};
use vstd::prelude::*;

verus! {

/// How severe a log record is.
#[derive(Clone, Copy, Debug, PartialEq, Eq, Hash, Structural)]
pub enum Level {
    Error,
    Warn,
    Info,
    Debug,
    Trace,
}

/// One record of the modem's event log.
#[derive(Clone, Debug, PartialEq, Eq, Hash)]
pub struct LogEntry {
    pub timestamp: Timestamp,
    pub level: Level,
    pub message: String,
}

/// A log record as a mathematical value.
pub struct LogEntryView {
    pub timestamp: Timestamp,
    pub level: Level,
    pub message: Seq<char>,
}

impl View for LogEntry {
    type V = LogEntryView;

    open spec fn view(&self) -> LogEntryView {
        LogEntryView { timestamp: self.timestamp, level: self.level, message: self.message@ }
    }
}

/// The values of a sequence of log records.
pub open spec fn entry_views(entries: Seq<LogEntry>) -> Seq<LogEntryView> {
    Seq::new(entries.len(), |i: int| entries[i]@)
}

/// `0^<time>^<date>^<level>^<message>`: the time is made of digits and `:`,
/// the date of digits and `/`, the level is one digit, and the message runs
/// to the end of the line.
pub open spec fn log_pattern() -> Seq<Token> {
    seq![
        Token::Lit('0'),
        Token::Lit('^'),
        Token::Run(CharClass::DigitColon),
        Token::Lit('^'),
        Token::Run(CharClass::DigitSlash),
        Token::Lit('^'),
        Token::One(CharClass::Digit),
        Token::Lit('^'),
        Token::Rest,
    ]
}

fn log_tokens() -> (pattern: Vec<Token>)
    ensures
        pattern@ == log_pattern(),
{
    vec![
        Token::Lit('0'),
        Token::Lit('^'),
        Token::Run(CharClass::DigitColon),
        Token::Lit('^'),
        Token::Run(CharClass::DigitSlash),
        Token::Lit('^'),
        Token::One(CharClass::Digit),
        Token::Lit('^'),
        Token::Rest,
    ]
}

/// The severity that a level digit stands for.
pub open spec fn level_of(digit: char) -> Level {
    if digit == '4' {
        Level::Warn
    } else if digit == '5' {
        Level::Info
    } else if digit == '6' {
        Level::Debug
    } else {
        Level::Error
    }
}

/// The text that is parsed for a record's point in time: the date, a space,
/// the time.
pub open spec fn date_time_text(date: Seq<char>, time: Seq<char>) -> Seq<char> {
    date + seq![' '] + time
}

/// The record made of a level digit, a message and the outcome of parsing
/// the date and time.
pub open spec fn log_entry_from(
    level: char,
    message: Seq<char>,
    parsed: Option<(i64, u32)>,
) -> Option<LogEntryView> {
    match timestamp_from(parsed) {
        Some(timestamp) => Some(LogEntryView { timestamp, level: level_of(level), message }),
        None => None,
    }
}

/// The log record that `record` holds: the date and time are read as
/// `day/month/year hour:minute:second` on UTC. `None` where the text does not
/// follow the grammar or states no date and time.
pub open spec fn log_record(record: Seq<char>) -> Option<LogEntryView> {
    match first_match(log_pattern(), record) {
        Some(c) => log_entry_from(
            c[2][0],
            c[3],
            datetime_parse(date_time_text(c[1], c[0]), "%d/%m/%Y %T"@),
        ),
        None => None,
    }
}

/// The records that the log text `s` holds, or the first record that is
/// malformed.
pub open spec fn log_lines(s: Seq<char>) -> Result<Seq<LogEntryView>, Seq<char>> {
    decode_records(split(s, "}-{"@), log_decoder())
}

/// `log_record` as a function value.
pub open spec fn log_decoder() -> spec_fn(Seq<char>) -> Option<LogEntryView> {
    |record: Seq<char>| log_record(record)
}

impl LogEntry {
    /// Builds a record from a level digit, a message and the outcome of
    /// parsing its date and time; `None` where that outcome is a failure.
    pub fn from_parts(level: char, message: String, parsed: Option<(i64, u32)>) -> (r: Option<
        LogEntry,
    >)
        ensures
            match log_entry_from(level, message@, parsed) {
                Some(e) => r matches Some(entry) && entry@ == e,
                None => r is None,
            },
    {
        match parsed {
            Some((secs, nanos)) => {
                let level = if level == '4' {
                    Level::Warn
                } else if level == '5' {
                    Level::Info
                } else if level == '6' {
                    Level::Debug
                } else {
                    Level::Error
                };
                Some(LogEntry { timestamp: Timestamp { secs, nanos }, level, message })
            },
            None => None,
        }
    }
}

/// Reads one record of the log.
pub fn parse_log_record(record: &Vec<char>) -> (r: Option<LogEntry>)
    ensures
        match log_record(record@) {
            Some(e) => r matches Some(entry) && entry@ == e,
            None => r is None,
        },
{
    let pattern = log_tokens();
    proof {
        lemma_first_match_count(log_pattern(), record@, 0);
        reveal_with_fuel(capture_count, 10);
        assert(capture_count(log_pattern(), 0) == 4);
        lemma_level_capture(record@, 0);
    }
    let caps = match find_match(&pattern, record) {
        Some(caps) => caps,
        None => { return None; },
    };
    let mut text: Vec<char> = Vec::new();
    let mut date = caps[1].clone();
    let mut time = caps[0].clone();
    text.append(&mut date);
    text.push(' ');
    text.append(&mut time);
    assert(text@ =~= date_time_text(caps[1]@, caps[0]@));
    let text = string_of(&text);
    let parsed = parse_datetime(text.as_str(), "%d/%m/%Y %T");
    LogEntry::from_parts(caps[2][0], string_of(&caps[3]), parsed)
}

/// The third capture of a log record holds exactly one character.
proof fn lemma_level_capture(s: Seq<char>, i: int)
    requires
        0 <= i,
    ensures
        crate::pattern::search_from(log_pattern(), s, i) matches Some(c) ==> c.len() == 4 && c[2].len()
            == 1,
    decreases s.len() - i,
{
    reveal_with_fuel(crate::pattern::match_from, 10);
    if i <= s.len() {
        if crate::pattern::match_at(log_pattern(), s, i) is None && i < s.len() {
            lemma_level_capture(s, i + 1);
        }
    }
}

/// Reads the modem's event log.
pub fn log_parser(s: &str) -> (r: Result<Vec<LogEntry>, Error>)
    ensures
        match log_lines(s@) {
            Ok(entries) => r matches Ok(v) && entry_views(v@) == entries,
            Err(bad) => r matches Err(e) && e.is_malformed(bad),
        },
{
    let chars = chars_of(s);
    let sep = chars_of("}-{");
    let pieces = split_chars(&chars, &sep);
    let ghost decode = log_decoder();
    let mut entries: Vec<LogEntry> = Vec::new();
    let mut i: usize = 0;
    assert(texts(pieces@).take(0) =~= Seq::empty());
    assert(entry_views(entries@) =~= Seq::empty());
    while i < pieces.len()
        invariant
            i <= pieces.len(),
            decode == log_decoder(),
            texts(pieces@) == split(s@, "}-{"@),
            decode_records(texts(pieces@).take(i as int), decode) == Ok::<
                Seq<LogEntryView>,
                Seq<char>,
            >(entry_views(entries@)),
        decreases pieces.len() - i,
    {
        assert(texts(pieces@).take(i + 1).drop_last() =~= texts(pieces@).take(i as int));
        assert(texts(pieces@).take(i + 1).last() == pieces[i as int]@);
        match parse_log_record(&pieces[i]) {
            Some(entry) => {
                let ghost before = entry_views(entries@);
                entries.push(entry);
                assert(entry_views(entries@) =~= before.push(entry@));
            },
            None => {
                proof {
                    assert(decode(pieces[i as int]@) is None);
                    assert(decode_records(texts(pieces@).take(i + 1), decode) == Err::<
                        Seq<LogEntryView>,
                        Seq<char>,
                    >(pieces[i as int]@));
                    lemma_decode_prefix_error(texts(pieces@), i + 1, decode);
                }
                return Err(Error::MalformedField(string_of(&pieces[i])));
            },
        }
        i += 1;
    }
    assert(texts(pieces@).take(pieces.len() as int) =~= texts(pieces@));
    Ok(entries)
}

/// One step of the digest: the next word folded into what was digested so
/// far.
pub open spec fn mix(h: u64, word: u64) -> u64 {
    (h ^ word).wrapping_mul(0x0000_0100_0000_01b3)
}

/// The digest `h` after the characters of `s` were folded into it.
pub open spec fn text_digest(h: u64, s: Seq<char>) -> u64
    decreases s.len(),
{
    if s.len() == 0 {
        h
    } else {
        mix(text_digest(h, s.drop_last()), s.last() as u64)
    }
}

/// The number under which a severity enters the digest.
pub open spec fn level_word(level: Level) -> u64 {
    match level {
        Level::Error => 1,
        Level::Warn => 2,
        Level::Info => 3,
        Level::Debug => 4,
        Level::Trace => 5,
    }
}

fn fold(h: u64, word: u64) -> (r: u64)
    ensures
        r == mix(h, word),
{
    (h ^ word).wrapping_mul(0x0000_0100_0000_01b3)
}

impl DedupKey for LogEntry {
    open spec fn digest_of(v: LogEntryView) -> u64 {
        text_digest(
            mix(
                mix(mix(0xcbf2_9ce4_8422_2325, v.timestamp.secs as u64), v.timestamp.nanos as u64),
                level_word(v.level),
            ),
            v.message,
        )
    }

    fn digest(&self) -> (d: u64) {
        let level: u64 = match self.level {
            Level::Error => 1,
            Level::Warn => 2,
            Level::Info => 3,
            Level::Debug => 4,
            Level::Trace => 5,
        };
        let mut h = fold(0xcbf2_9ce4_8422_2325, self.timestamp.secs as u64);
        h = fold(h, self.timestamp.nanos as u64);
        h = fold(h, level);
        let chars = chars_of(self.message.as_str());
        let ghost start = h;
        let mut i: usize = 0;
        assert(chars@.take(0) =~= Seq::empty());
        while i < chars.len()
            invariant
                i <= chars.len(),
                h == text_digest(start, chars@.take(i as int)),
            decreases chars.len() - i,
        {
            assert(chars@.take(i + 1).drop_last() =~= chars@.take(i as int));
            h = fold(h, chars[i] as u64);
            i += 1;
        }
        assert(chars@.take(chars.len() as int) =~= chars@);
        h
    }

    fn same(&self, other: &Self) -> (r: bool) {
        self.timestamp.secs == other.timestamp.secs && self.timestamp.nanos
            == other.timestamp.nanos && self.level == other.level && self.message == other.message
    }

    fn duplicate(&self) -> (r: Self) {
        LogEntry { timestamp: self.timestamp, level: self.level, message: self.message.clone() }
    }
}

/// The record that is written from a time, a date, a level digit and a
/// message.
pub open spec fn log_text(time: Seq<char>, date: Seq<char>, level: char, message: Seq<char>) -> Seq<
    char,
> {
    "0^"@ + time + "^"@ + date + "^"@ + seq![level] + "^"@ + message
}

proof fn lemma_log_pattern_separated()
    ensures
        separated(log_pattern()),
{
    let p = log_pattern();
    assert forall|k: int| 0 <= k < p.len() implies match #[trigger] p[k] {
        Token::Run(class) => k + 1 < p.len() ==> (p[k + 1] matches Token::Lit(c) && !class.has(c)),
        Token::Skip(class) => k + 1 < p.len() ==> (p[k + 1] matches Token::Lit(c) && !class.has(
            c,
        )),
        Token::Rest => k + 1 == p.len(),
        _ => true,
    } by {
        if k == 2 {
            assert(p[3] == Token::Lit('^'));
        } else if k == 4 {
            assert(p[5] == Token::Lit('^'));
        }
    }
}

proof fn lemma_log_written(parts: Seq<Seq<char>>)
    requires
        parts.len() == 4,
    ensures
        written(log_pattern(), 0, parts, 0) == "0^"@ + parts[0] + "^"@ + parts[1] + "^"@ + parts[2]
            + "^"@ + parts[3],
        kept_parts(log_pattern(), 0, parts, 0) == parts,
{
    let p = log_pattern();
    assert(p.len() == 9);
    reveal_strlit("0^");
    reveal_strlit("^");
    lemma_written_literals(p, 0, parts, 0, "0^"@);
    lemma_written_part(p, 2, parts, 0);
    lemma_written_literals(p, 3, parts, 1, "^"@);
    lemma_written_part(p, 4, parts, 1);
    lemma_written_literals(p, 5, parts, 2, "^"@);
    lemma_written_part(p, 6, parts, 2);
    lemma_written_literals(p, 7, parts, 3, "^"@);
    lemma_written_part(p, 8, parts, 3);
    assert(written(p, 9, parts, 4) =~= Seq::empty());
    let texts = seq!["0^"@, parts[0], "^"@, parts[1], "^"@, parts[2], "^"@, parts[3]];
    lemma_joined(
        texts,
        seq![
            written(p, 0, parts, 0),
            written(p, 2, parts, 0),
            written(p, 3, parts, 1),
            written(p, 4, parts, 1),
            written(p, 5, parts, 2),
            written(p, 6, parts, 2),
            written(p, 7, parts, 3),
            written(p, 8, parts, 3),
            written(p, 9, parts, 4),
        ],
    );
    assert(joined(texts) == "0^"@ + parts[0] + "^"@ + parts[1] + "^"@ + parts[2] + "^"@
        + parts[3]) by {
        reveal_with_fuel(joined, 9);
    }
    assert(kept_parts(p, 9, parts, 4) =~= Seq::empty());
    assert(kept_parts(p, 6, parts, 2) =~= seq![parts[2], parts[3]]) by {
        reveal_with_fuel(kept_parts, 4);
    }
    assert(kept_parts(p, 0, parts, 0) =~= parts) by {
        reveal_with_fuel(kept_parts, 7);
    }
}

/// Every record is read back from its text: the level and the message as
/// they were written, and the point in time as the date and the time are
/// parsed. The time may be any text of digits and `:`, the date any text of
/// digits and `/`, and the message any text without a line feed.
pub proof fn lemma_log_round_trip(time: Seq<char>, date: Seq<char>, level: char, message: Seq<char>)
    requires
        time.len() > 0,
        all_in(time, CharClass::DigitColon),
        date.len() > 0,
        all_in(date, CharClass::DigitSlash),
        is_digit(level),
        forall|i: int| 0 <= i < message.len() ==> #[trigger] message[i] != '\n',
    ensures
        log_record(log_text(time, date, level, message)) == log_entry_from(
            level,
            message,
            datetime_parse(date_time_text(date, time), "%d/%m/%Y %T"@),
        ),
{
    let p = log_pattern();
    let parts = seq![time, date, seq![level], message];
    lemma_log_pattern_separated();
    lemma_log_written(parts);
    assert(p.len() == 9);
    assert(all_fit(p, 9, parts, 4));
    assert(all_fit(p, 6, parts, 2)) by {
        reveal_with_fuel(all_fit, 4);
    }
    assert(all_fit(p, 0, parts, 0)) by {
        reveal_with_fuel(all_fit, 7);
    }
    lemma_first_match_written(p, parts);
}

/// A record as it is written.
pub struct WrittenRecord {
    pub time: Seq<char>,
    pub date: Seq<char>,
    pub level: char,
    pub message: Seq<char>,
}

impl WrittenRecord {
    /// Whether the record can be written into a log: the time is made of
    /// digits and `:`, the date of digits and `/`, the level is a digit, and
    /// the message holds neither a line feed nor the text `}-{` that stands
    /// between two records.
    pub open spec fn can_be_written(self) -> bool {
        &&& self.time.len() > 0
        &&& all_in(self.time, CharClass::DigitColon)
        &&& self.date.len() > 0
        &&& all_in(self.date, CharClass::DigitSlash)
        &&& is_digit(self.level)
        &&& free_of(self.message, '\n')
        &&& without(self.message, "}-{"@)
    }

    /// What stands before the message in the text of the record.
    pub open spec fn head(self) -> Seq<char> {
        "0^"@ + self.time + "^"@ + self.date + "^"@ + seq![self.level] + "^"@
    }

    /// The text of the record.
    pub open spec fn text(self) -> Seq<char> {
        log_text(self.time, self.date, self.level, self.message)
    }

    /// The record that the text states, `None` where the date and the time
    /// state no point in time.
    pub open spec fn stated(self) -> Option<LogEntryView> {
        log_entry_from(
            self.level,
            self.message,
            datetime_parse(date_time_text(self.date, self.time), "%d/%m/%Y %T"@),
        )
    }
}

/// What stands before the message of a record holds no `}`.
proof fn lemma_head_no_brace(r: WrittenRecord)
    requires
        r.can_be_written(),
    ensures
        free_of(r.head(), '}'),
        r.text() == r.head() + r.message,
{
    reveal_strlit("0^");
    reveal_strlit("^");
    let a = "0^"@ + r.time;
    let b = a + "^"@ + r.date;
    let c = r.head();
    assert(c =~= b + "^"@ + seq![r.level] + "^"@);
    assert(free_of(a, '}')) by {
        assert forall|n: int| 0 <= n < a.len() implies #[trigger] a[n] != '}' by {
            if n >= 2 {
                assert(a[n] == r.time[n - 2]);
                assert(CharClass::DigitColon.has(r.time[n - 2]));
            }
        }
    }
    assert(free_of(b, '}')) by {
        assert forall|n: int| 0 <= n < b.len() implies #[trigger] b[n] != '}' by {
            if n < a.len() {
                assert(b[n] == a[n]);
            } else if n > a.len() {
                assert(b[n] == r.date[n - a.len() - 1]);
                assert(CharClass::DigitSlash.has(r.date[n - a.len() - 1]));
            }
        }
    }
    assert(free_of(c, '}')) by {
        assert forall|n: int| 0 <= n < c.len() implies #[trigger] c[n] != '}' by {
            if n < b.len() {
                assert(c[n] == b[n]);
            }
        }
    }
    assert(r.text() =~= c + r.message);
}

/// In a record with `}-{` behind it, that text occurs only behind the
/// record: not before the message, which holds no `}`, not inside the
/// message, and not across the message's end, since `}-{` does not begin
/// as it ends.
proof fn lemma_record_cut(r: WrittenRecord)
    requires
        r.can_be_written(),
    ensures
        cut_only_after(r.text(), "}-{"@),
{
    reveal_strlit("}-{");
    let sep = "}-{"@;
    let t = r.text();
    let head = r.head();
    lemma_head_no_brace(r);
    assert forall|q: int| 0 <= q < t.len() implies #[trigger] (t + sep).subrange(q, q + sep.len())
        != sep by {
        let found = (t + sep).subrange(q, q + sep.len());
        if found == sep {
            assert(found[0] == '}');
            assert(found[0] == t[q]);
            if q < head.len() {
                assert(t[q] == head[q]);
            } else {
                let j = q - head.len();
                if j + 3 <= r.message.len() {
                    assert(r.message.subrange(j, j + 3) =~= found);
                } else if j + 2 == r.message.len() {
                    assert(found[2] == sep[0]);
                } else {
                    assert(found[1] == sep[0]);
                }
            }
        }
    }
}

/// The log that is written from records.
pub open spec fn log_table_text(records: Seq<WrittenRecord>) -> Seq<char> {
    joined_with(Seq::new(records.len(), |i: int| records[i].text()), "}-{"@)
}

/// Every log is read back record by record: a log that is written from
/// records is cut into their texts, and each text states its record. So
/// where the date and the time of every record state a point in time, the
/// log decodes to the records as they were written, in their order.
pub proof fn lemma_log_table_round_trip(records: Seq<WrittenRecord>)
    requires
        records.len() > 0,
        forall|i: int| 0 <= i < records.len() ==> (#[trigger] records[i]).can_be_written(),
    ensures
        log_lines(log_table_text(records)) == decode_records(
            Seq::new(records.len(), |i: int| records[i].text()),
            log_decoder(),
        ),
        forall|i: int|
            0 <= i < records.len() ==> log_record((#[trigger] records[i]).text())
                == records[i].stated(),
        (forall|i: int| 0 <= i < records.len() ==> (#[trigger] records[i]).stated() is Some)
            ==> log_lines(log_table_text(records)) == Ok::<Seq<LogEntryView>, Seq<char>>(
            Seq::new(records.len(), |i: int| records[i].stated().unwrap()),
        ),
{
    let pieces = Seq::new(records.len(), |i: int| records[i].text());
    reveal_strlit("}-{");
    assert forall|i: int| 0 <= i < pieces.len() implies cut_only_after(
        #[trigger] pieces[i],
        "}-{"@,
    ) by {
        lemma_record_cut(records[i]);
    }
    lemma_split_round_trip(pieces, "}-{"@);
    assert forall|i: int| 0 <= i < records.len() implies log_record((#[trigger] records[i]).text())
        == records[i].stated() by {
        let r = records[i];
        assert(r.can_be_written());
        lemma_log_round_trip(r.time, r.date, r.level, r.message);
    }
    if forall|i: int| 0 <= i < records.len() ==> (#[trigger] records[i]).stated() is Some {
        let entries = Seq::new(records.len(), |i: int| records[i].stated().unwrap());
        assert forall|i: int| 0 <= i < pieces.len() implies #[trigger] log_decoder()(pieces[i])
            == Some(entries[i]) by {
            assert(records[i].stated() is Some);
            assert(log_record(records[i].text()) == records[i].stated());
        }
        lemma_decode_all(pieces, log_decoder(), entries);
    }
}

} // verus!
