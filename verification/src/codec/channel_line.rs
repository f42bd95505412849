//! The channel tables: records joined by `|+|`, each a row of fields that
//! end in `^`. A row of a downstream channel has nine fields, a row of an
//! upstream channel seven.

use crate::codec::{
    decode_records, lemma_decode_all, lemma_decode_prefix_error, lemma_decode_records,
};
use crate::error::Error;
use crate::pattern::{
    all_fit, all_in, capture_count, find_match, first_match, fits, kept_parts,
    lemma_first_match_count, lemma_first_match_written, lemma_too_few_literals, literal_count,
    separated, written, CharClass, Token,
};
use crate::text::{
    chars_of, count_char, cut_only_after, decimal_digits, decimal_value, free_of, is_number_up_to,
    joined_with, lemma_count_concat, lemma_decimal_round_trip, lemma_free_of_cut,
    lemma_split_round_trip, parse_number, same_text,
    split, split_chars, string_of, texts,
};
use vstd::prelude::*;

verus! {

/// How a channel is modulated.
#[derive(Clone, Copy, Debug, PartialEq, Eq, Hash, Structural)]
pub enum Modulation {
    QAM256,
    OFDMPLC,
    SCQAM,
    Unknown,
}

/// A downstream channel.
#[derive(Clone, Copy, Debug, PartialEq, Eq, Structural)]
pub struct DownstreamChannel {
    pub channel_id: u8,
    pub modulation: Modulation,
    pub lock_status: bool,
    pub frequency: u32,
    pub power: u8,
    pub snr: u8,
    pub corrected: u32,
    pub uncorrectables: u32,
}

/// An upstream channel. The power is a decimal fraction and is kept as the
/// modem wrote it: digits with at most one `.` among them.
#[derive(Clone, Debug, PartialEq, Eq)]
pub struct UpstreamChannel {
    pub channel_id: u8,
    pub modulation: Modulation,
    pub lock_status: bool,
    pub frequency: u32,
    pub width: u32,
    pub power: String,
}

/// A row of a channel table.
#[derive(Clone, Debug, PartialEq, Eq)]
pub enum Channel {
    Downstream(DownstreamChannel),
    Upstream(UpstreamChannel),
}

/// An upstream channel as a mathematical value.
pub struct UpstreamChannelView {
    pub channel_id: u8,
    pub modulation: Modulation,
    pub lock_status: bool,
    pub frequency: u32,
    pub width: u32,
    pub power: Seq<char>,
}

/// A channel as a mathematical value.
pub enum ChannelView {
    Downstream(DownstreamChannel),
    Upstream(UpstreamChannelView),
}

impl View for UpstreamChannel {
    type V = UpstreamChannelView;

    open spec fn view(&self) -> UpstreamChannelView {
        UpstreamChannelView {
            channel_id: self.channel_id,
            modulation: self.modulation,
            lock_status: self.lock_status,
            frequency: self.frequency,
            width: self.width,
            power: self.power@,
        }
    }
}

impl View for Channel {
    type V = ChannelView;

    open spec fn view(&self) -> ChannelView {
        match self {
            Channel::Downstream(c) => ChannelView::Downstream(*c),
            Channel::Upstream(c) => ChannelView::Upstream(c@),
        }
    }
}

/// The values of a sequence of channels.
pub open spec fn channel_views(channels: Seq<Channel>) -> Seq<ChannelView> {
    Seq::new(channels.len(), |i: int| channels[i]@)
}

impl Modulation {
    /// The name under which the modulation is reported.
    pub open spec fn name(self) -> Seq<char> {
        match self {
            Modulation::QAM256 => "QAM-256"@,
            Modulation::OFDMPLC => "OFDM-PLC"@,
            Modulation::SCQAM => "SC-QAM"@,
            Modulation::Unknown => "Unknown"@,
        }
    }

    /// The modulation that the modem's token stands for.
    pub open spec fn of_token(token: Seq<char>) -> Modulation {
        if token == "QAM256"@ {
            Modulation::QAM256
        } else if token == "OFDM PLC"@ {
            Modulation::OFDMPLC
        } else if token == "SC-QAM"@ {
            Modulation::SCQAM
        } else {
            Modulation::Unknown
        }
    }

    /// The name under which the modulation is reported.
    pub fn to_string(&self) -> (s: String)
        ensures
            s@ == self.name(),
    {
        match self {
            Modulation::QAM256 => String::from_str("QAM-256"),
            Modulation::OFDMPLC => String::from_str("OFDM-PLC"),
            Modulation::SCQAM => String::from_str("SC-QAM"),
            Modulation::Unknown => String::from_str("Unknown"),
        }
    }

    /// Reads the modem's modulation token; a token that is not known gives
    /// `Unknown`.
    pub fn from_token(token: &Vec<char>) -> (m: Modulation)
        ensures
            m == Modulation::of_token(token@),
    {
        if same_text(token, "QAM256") {
            Modulation::QAM256
        } else if same_text(token, "OFDM PLC") {
            Modulation::OFDMPLC
        } else if same_text(token, "SC-QAM") {
            Modulation::SCQAM
        } else {
            Modulation::Unknown
        }
    }
}

/// `<idx>^<lock>^<modulation>^<channel id>^<frequency>^<power>^<snr>^<corrected>^<uncorrectables>^`:
/// the lock is a word, the modulation is made of word characters and
/// spaces, the others are runs of digits. The index is not kept.
pub open spec fn downstream_pattern() -> Seq<Token> {
    seq![
        Token::Skip(CharClass::Digit),
        Token::Lit('^'),
        Token::Run(CharClass::Word),
        Token::Lit('^'),
        Token::Run(CharClass::WordSpace),
        Token::Lit('^'),
        Token::Run(CharClass::Digit),
        Token::Lit('^'),
        Token::Run(CharClass::Digit),
        Token::Lit('^'),
        Token::Run(CharClass::Digit),
        Token::Lit('^'),
        Token::Run(CharClass::Digit),
        Token::Lit('^'),
        Token::Run(CharClass::Digit),
        Token::Lit('^'),
        Token::Run(CharClass::Digit),
        Token::Lit('^'),
    ]
}

/// `<idx>^<lock>^<modulation>^<channel id>^<width>^<frequency>^<power>^`: the
/// modulation may also hold `-`, and the power is made of digits and `.`.
pub open spec fn upstream_pattern() -> Seq<Token> {
    seq![
        Token::Skip(CharClass::Digit),
        Token::Lit('^'),
        Token::Run(CharClass::Word),
        Token::Lit('^'),
        Token::Run(CharClass::WordSpaceDash),
        Token::Lit('^'),
        Token::Run(CharClass::Digit),
        Token::Lit('^'),
        Token::Run(CharClass::Digit),
        Token::Lit('^'),
        Token::Run(CharClass::Digit),
        Token::Lit('^'),
        Token::Run(CharClass::DigitDot),
        Token::Lit('^'),
    ]
}

fn downstream_tokens() -> (pattern: Vec<Token>)
    ensures
        pattern@ == downstream_pattern(),
{
    vec![
        Token::Skip(CharClass::Digit),
        Token::Lit('^'),
        Token::Run(CharClass::Word),
        Token::Lit('^'),
        Token::Run(CharClass::WordSpace),
        Token::Lit('^'),
        Token::Run(CharClass::Digit),
        Token::Lit('^'),
        Token::Run(CharClass::Digit),
        Token::Lit('^'),
        Token::Run(CharClass::Digit),
        Token::Lit('^'),
        Token::Run(CharClass::Digit),
        Token::Lit('^'),
        Token::Run(CharClass::Digit),
        Token::Lit('^'),
        Token::Run(CharClass::Digit),
        Token::Lit('^'),
    ]
}

fn upstream_tokens() -> (pattern: Vec<Token>)
    ensures
        pattern@ == upstream_pattern(),
{
    vec![
        Token::Skip(CharClass::Digit),
        Token::Lit('^'),
        Token::Run(CharClass::Word),
        Token::Lit('^'),
        Token::Run(CharClass::WordSpaceDash),
        Token::Lit('^'),
        Token::Run(CharClass::Digit),
        Token::Lit('^'),
        Token::Run(CharClass::Digit),
        Token::Lit('^'),
        Token::Run(CharClass::Digit),
        Token::Lit('^'),
        Token::Run(CharClass::DigitDot),
        Token::Lit('^'),
    ]
}

/// Whether a text made of digits and `.` writes a decimal fraction: it has
/// at most one `.` and at least one digit.
pub open spec fn is_decimal(s: Seq<char>) -> bool {
    count_char(s, '.') <= 1 && s.len() > count_char(s, '.')
}

/// The two shapes of a row, and what a row that has neither is.
pub enum RecordShape {
    Downstream(Vec<Vec<char>>),
    Upstream(Vec<Vec<char>>),
    NoMatch,
}

/// The fields of `record` under the downstream grammar or, where it does
/// not match, under the upstream grammar.
pub open spec fn shape_of(record: Seq<char>) -> Option<(bool, Seq<Seq<char>>)> {
    match first_match(downstream_pattern(), record) {
        Some(c) => Some((true, c)),
        None => match first_match(upstream_pattern(), record) {
            Some(c) => Some((false, c)),
            None => None,
        },
    }
}

/// The downstream channel that the eight fields state; `None` where a
/// number is above what its field can hold.
pub open spec fn downstream_from(c: Seq<Seq<char>>) -> Option<DownstreamChannel> {
    if is_number_up_to(c[2], u8::MAX as nat) && is_number_up_to(c[3], u32::MAX as nat)
        && is_number_up_to(c[4], u8::MAX as nat) && is_number_up_to(c[5], u8::MAX as nat)
        && is_number_up_to(c[6], u32::MAX as nat) && is_number_up_to(c[7], u32::MAX as nat) {
        Some(
            DownstreamChannel {
                channel_id: decimal_value(c[2]) as u8,
                modulation: Modulation::of_token(c[1]),
                lock_status: c[0] == "Locked"@,
                frequency: decimal_value(c[3]) as u32,
                power: decimal_value(c[4]) as u8,
                snr: decimal_value(c[5]) as u8,
                corrected: decimal_value(c[6]) as u32,
                uncorrectables: decimal_value(c[7]) as u32,
            },
        )
    } else {
        None
    }
}

/// The upstream channel that the six fields state; `None` where a number is
/// above what its field can hold or the power is no decimal fraction.
pub open spec fn upstream_from(c: Seq<Seq<char>>) -> Option<UpstreamChannelView> {
    if is_number_up_to(c[2], u8::MAX as nat) && is_number_up_to(c[3], u32::MAX as nat)
        && is_number_up_to(c[4], u32::MAX as nat) && is_decimal(c[5]) {
        Some(
            UpstreamChannelView {
                channel_id: decimal_value(c[2]) as u8,
                modulation: Modulation::of_token(c[1]),
                lock_status: c[0] == "Locked"@,
                frequency: decimal_value(c[4]) as u32,
                width: decimal_value(c[3]) as u32,
                power: c[5],
            },
        )
    } else {
        None
    }
}

/// The channel that the row `record` states. The downstream grammar is tried
/// first; a row that follows it is never read as an upstream row.
pub open spec fn channel_record(record: Seq<char>) -> Option<ChannelView> {
    match shape_of(record) {
        Some((true, c)) => match downstream_from(c) {
            Some(d) => Some(ChannelView::Downstream(d)),
            None => None,
        },
        Some((false, c)) => match upstream_from(c) {
            Some(u) => Some(ChannelView::Upstream(u)),
            None => None,
        },
        None => None,
    }
}

/// `channel_record` as a function value.
pub open spec fn channel_decoder() -> spec_fn(Seq<char>) -> Option<ChannelView> {
    |record: Seq<char>| channel_record(record)
}

/// The channels that the table `s` holds, or the first row that is
/// malformed.
pub open spec fn channel_lines(s: Seq<char>) -> Result<Seq<ChannelView>, Seq<char>> {
    decode_records(split(s, "|+|"@), channel_decoder())
}

impl RecordShape {
    /// Whether the row is a downstream row, and its fields; `None` for a
    /// row of neither shape.
    pub open spec fn view(self) -> Option<(bool, Seq<Seq<char>>)> {
        match self {
            RecordShape::Downstream(c) => Some((true, texts(c@))),
            RecordShape::Upstream(c) => Some((false, texts(c@))),
            RecordShape::NoMatch => None,
        }
    }
}

/// Tells which of the two grammars the row follows.
pub fn classify_record(record: &Vec<char>) -> (shape: RecordShape)
    ensures
        shape.view() == shape_of(record@),
        shape matches RecordShape::Downstream(c) ==> c.len() == 8,
        shape matches RecordShape::Upstream(c) ==> c.len() == 6,
{
    let downstream = downstream_tokens();
    proof {
        lemma_first_match_count(downstream_pattern(), record@, 0);
        lemma_first_match_count(upstream_pattern(), record@, 0);
        reveal_with_fuel(capture_count, 20);
        assert(capture_count(downstream_pattern(), 0) == 8);
        assert(capture_count(upstream_pattern(), 0) == 6);
    }
    match find_match(&downstream, record) {
        Some(caps) => RecordShape::Downstream(caps),
        None => {
            let upstream = upstream_tokens();
            match find_match(&upstream, record) {
                Some(caps) => RecordShape::Upstream(caps),
                None => RecordShape::NoMatch,
            }
        },
    }
}

fn field_u8(s: &Vec<char>) -> (r: Option<u8>)
    ensures
        r is Some <==> is_number_up_to(s@, u8::MAX as nat),
        r matches Some(v) ==> v == decimal_value(s@),
{
    match parse_number(s, u8::MAX as u64) {
        Some(v) => Some(v as u8),
        None => None,
    }
}

fn field_u32(s: &Vec<char>) -> (r: Option<u32>)
    ensures
        r is Some <==> is_number_up_to(s@, u32::MAX as nat),
        r matches Some(v) ==> v == decimal_value(s@),
{
    match parse_number(s, u32::MAX as u64) {
        Some(v) => Some(v as u32),
        None => None,
    }
}

/// Whether `s` has at most one `.` and something besides.
pub fn check_decimal(s: &Vec<char>) -> (r: bool)
    ensures
        r == is_decimal(s@),
{
    let mut dots: usize = 0;
    let mut i: usize = 0;
    while i < s.len()
        invariant
            i <= s.len(),
            dots == count_char(s@.take(i as int), '.'),
            dots <= i,
        decreases s.len() - i,
    {
        assert(s@.take(i + 1).drop_last() =~= s@.take(i as int));
        if s[i] == '.' {
            dots += 1;
        }
        i += 1;
    }
    assert(s@.take(s.len() as int) =~= s@);
    dots <= 1 && s.len() > dots
}

impl DownstreamChannel {
    /// Builds the channel from the eight fields of a downstream row.
    pub fn from_fields(c: &Vec<Vec<char>>) -> (r: Option<DownstreamChannel>)
        requires
            c.len() == 8,
        ensures
            r == downstream_from(texts(c@)),
    {
        let channel_id = field_u8(&c[2])?;
        let frequency = field_u32(&c[3])?;
        let power = field_u8(&c[4])?;
        let snr = field_u8(&c[5])?;
        let corrected = field_u32(&c[6])?;
        let uncorrectables = field_u32(&c[7])?;
        Some(
            DownstreamChannel {
                channel_id,
                modulation: Modulation::from_token(&c[1]),
                lock_status: same_text(&c[0], "Locked"),
                frequency,
                power,
                snr,
                corrected,
                uncorrectables,
            },
        )
    }
}

impl UpstreamChannel {
    /// Builds the channel from the six fields of an upstream row.
    pub fn from_fields(c: &Vec<Vec<char>>) -> (r: Option<UpstreamChannel>)
        requires
            c.len() == 6,
        ensures
            match upstream_from(texts(c@)) {
                Some(u) => r matches Some(channel) && channel@ == u,
                None => r is None,
            },
    {
        let channel_id = field_u8(&c[2])?;
        let width = field_u32(&c[3])?;
        let frequency = field_u32(&c[4])?;
        if !check_decimal(&c[5]) {
            return None;
        }
        Some(
            UpstreamChannel {
                channel_id,
                modulation: Modulation::from_token(&c[1]),
                lock_status: same_text(&c[0], "Locked"),
                frequency,
                width,
                power: string_of(&c[5]),
            },
        )
    }
}

/// Reads one row of a channel table.
pub fn parse_channel_record(record: &Vec<char>) -> (r: Option<Channel>)
    ensures
        match channel_record(record@) {
            Some(c) => r matches Some(channel) && channel@ == c,
            None => r is None,
        },
{
    match classify_record(record) {
        RecordShape::Downstream(fields) => {
            match DownstreamChannel::from_fields(&fields) {
                Some(d) => Some(Channel::Downstream(d)),
                None => None,
            }
        },
        RecordShape::Upstream(fields) => {
            match UpstreamChannel::from_fields(&fields) {
                Some(u) => Some(Channel::Upstream(u)),
                None => None,
            }
        },
        RecordShape::NoMatch => None,
    }
}

/// Reads a channel table.
pub fn channel_parser(s: &str) -> (r: Result<Vec<Channel>, Error>)
    ensures
        match channel_lines(s@) {
            Ok(channels) => r matches Ok(v) && channel_views(v@) == channels,
            Err(bad) => r matches Err(e) && e.is_malformed(bad),
        },
{
    let chars = chars_of(s);
    let sep = chars_of("|+|");
    let pieces = split_chars(&chars, &sep);
    let ghost decode = channel_decoder();
    let mut channels: Vec<Channel> = Vec::new();
    let mut i: usize = 0;
    assert(texts(pieces@).take(0) =~= Seq::empty());
    assert(channel_views(channels@) =~= Seq::empty());
    while i < pieces.len()
        invariant
            i <= pieces.len(),
            decode == channel_decoder(),
            texts(pieces@) == split(s@, "|+|"@),
            decode_records(texts(pieces@).take(i as int), decode) == Ok::<
                Seq<ChannelView>,
                Seq<char>,
            >(channel_views(channels@)),
        decreases pieces.len() - i,
    {
        assert(texts(pieces@).take(i + 1).drop_last() =~= texts(pieces@).take(i as int));
        assert(texts(pieces@).take(i + 1).last() == pieces[i as int]@);
        match parse_channel_record(&pieces[i]) {
            Some(channel) => {
                let ghost before = channel_views(channels@);
                channels.push(channel);
                assert(channel_views(channels@) =~= before.push(channel@));
            },
            None => {
                proof {
                    assert(decode(pieces[i as int]@) is None);
                    assert(decode_records(texts(pieces@).take(i + 1), decode) == Err::<
                        Seq<ChannelView>,
                        Seq<char>,
                    >(pieces[i as int]@));
                    lemma_decode_prefix_error(texts(pieces@), i + 1, decode);
                }
                return Err(Error::MalformedField(string_of(&pieces[i])));
            },
        }
        i += 1;
    }
    assert(texts(pieces@).take(pieces.len() as int) =~= texts(pieces@));
    Ok(channels)
}

/// Neither the lock token nor the modulation token can make a downstream
/// row fail: a lock token other than `Locked` reads as unlocked, and a
/// modulation token that is not known reads as `Unknown`.
pub proof fn lemma_tokens_never_fail(c: Seq<Seq<char>>, lock: Seq<char>, modulation: Seq<char>)
    requires
        c.len() == 8,
    ensures
        downstream_from(c.update(0, lock).update(1, modulation)) is Some <==> downstream_from(c)
            is Some,
        downstream_from(c) matches Some(d) ==> (d.lock_status <==> c[0] == "Locked"@),
        downstream_from(c) matches Some(d) ==> (c[1] != "QAM256"@ && c[1] != "OFDM PLC"@ && c[1]
            != "SC-QAM"@ ==> d.modulation == Modulation::Unknown),
{
}

/// A table with a row that follows neither grammar is malformed, and so is
/// one with a row whose numbers do not fit their fields.
pub proof fn lemma_bad_row_is_malformed(s: Seq<char>, k: int)
    requires
        0 <= k < split(s, "|+|"@).len(),
        channel_record(split(s, "|+|"@)[k]) is None,
    ensures
        channel_lines(s) is Err,
{
    let pieces = split(s, "|+|"@);
    lemma_decode_records(pieces, channel_decoder());
    assert(channel_decoder()(pieces[k]) is None);
}

/// The fields of a row, each followed by `^`.
pub open spec fn row_text(fields: Seq<Seq<char>>) -> Seq<char>
    decreases fields.len(),
{
    if fields.len() == 0 {
        Seq::empty()
    } else {
        fields.first() + seq!['^'] + row_text(fields.drop_first())
    }
}

/// Whether a pattern is that of a row: an index that is skipped, then
/// runs, each of them followed by `^`.
pub open spec fn is_row_pattern(pattern: Seq<Token>) -> bool {
    &&& pattern.len() % 2 == 0
    &&& pattern.len() >= 2
    &&& pattern[0] is Skip
    &&& forall|m: int| 1 <= m && 2 * m < pattern.len() ==> (#[trigger] pattern[2 * m]) is Run
    &&& forall|m: int|
        0 <= m && 2 * m + 1 < pattern.len() ==> #[trigger] pattern[2 * m + 1] == Token::Lit('^')
}

/// In a row pattern no run can run on into the `^` that follows it.
pub proof fn lemma_row_pattern_separated(pattern: Seq<Token>)
    requires
        is_row_pattern(pattern),
    ensures
        separated(pattern),
{
    assert forall|class: CharClass| !class.has('^') by {}
    assert forall|k: int| 0 <= k < pattern.len() implies match #[trigger] pattern[k] {
        Token::Run(class) => k + 1 < pattern.len() ==> (pattern[k + 1] matches Token::Lit(c)
            && !class.has(c)),
        Token::Skip(class) => k + 1 < pattern.len() ==> (pattern[k + 1] matches Token::Lit(c)
            && !class.has(c)),
        Token::Rest => k + 1 == pattern.len(),
        _ => true,
    } by {
        if k % 2 == 0 {
            let m = k / 2;
            assert(k == 2 * m);
            assert(pattern[2 * m + 1] == Token::Lit('^'));
            if m >= 1 {
                assert(pattern[2 * m] is Run);
            }
        } else {
            let m = k / 2;
            assert(k == 2 * m + 1);
            assert(pattern[2 * m + 1] == Token::Lit('^'));
        }
    }
}

/// A row pattern writes its parts as a row, and the parts fit it where
/// each fits its token.
pub proof fn lemma_row_written(pattern: Seq<Token>, parts: Seq<Seq<char>>, m: int)
    requires
        is_row_pattern(pattern),
        pattern.len() == 2 * parts.len(),
        0 <= m <= parts.len(),
        forall|i: int| 0 <= i < parts.len() ==> fits(#[trigger] pattern[2 * i], parts[i]),
    ensures
        all_fit(pattern, 2 * m, parts, m),
        written(pattern, 2 * m, parts, m) == row_text(parts.skip(m)),
        m >= 1 ==> kept_parts(pattern, 2 * m, parts, m) == parts.skip(m),
        m == 0 ==> kept_parts(pattern, 0, parts, 0) == parts.skip(1),
    decreases parts.len() - m,
{
    if m == parts.len() {
        assert(parts.skip(m) =~= Seq::empty());
        assert(kept_parts(pattern, 2 * m, parts, m) =~= Seq::empty());
    } else {
        lemma_row_written(pattern, parts, m + 1);
        let k = 2 * m;
        assert(pattern[2 * m + 1] == Token::Lit('^'));
        assert(fits(pattern[2 * m], parts[m]));
        assert(!(pattern[k] is Lit)) by {
            if m >= 1 {
                assert(pattern[2 * m] is Run);
            }
        }
        assert(parts.skip(m).first() == parts[m]);
        assert(parts.skip(m).drop_first() =~= parts.skip(m + 1));
        assert(all_fit(pattern, k, parts, m)) by {
            assert(all_fit(pattern, k + 1, parts, m + 1) == all_fit(pattern, k + 2, parts, m + 1));
        }
        assert(written(pattern, k, parts, m) =~= row_text(parts.skip(m))) by {
            assert(written(pattern, k + 1, parts, m + 1) == seq!['^'] + written(
                pattern,
                k + 2,
                parts,
                m + 1,
            ));
            assert(written(pattern, k, parts, m) == parts[m] + written(
                pattern,
                k + 1,
                parts,
                m + 1,
            ));
        }
        assert(kept_parts(pattern, k + 1, parts, m + 1) == kept_parts(
            pattern,
            k + 2,
            parts,
            m + 1,
        ));
        if m >= 1 {
            assert(pattern[2 * m] is Run);
            assert(kept_parts(pattern, k, parts, m) =~= seq![parts[m]] + kept_parts(
                pattern,
                k + 1,
                parts,
                m + 1,
            ));
            assert(kept_parts(pattern, k, parts, m) =~= parts.skip(m));
        } else {
            assert(kept_parts(pattern, 0, parts, 0) == kept_parts(pattern, 1, parts, 1));
        }
    }
}

/// The row of a downstream channel: the index, the lock token, the
/// modulation token and the six numbers.
pub open spec fn downstream_fields(
    index: nat,
    lock: Seq<char>,
    modulation: Seq<char>,
    channel: DownstreamChannel,
) -> Seq<Seq<char>> {
    seq![
        decimal_digits(index),
        lock,
        modulation,
        decimal_digits(channel.channel_id as nat),
        decimal_digits(channel.frequency as nat),
        decimal_digits(channel.power as nat),
        decimal_digits(channel.snr as nat),
        decimal_digits(channel.corrected as nat),
        decimal_digits(channel.uncorrectables as nat),
    ]
}

/// Every downstream channel is read back from its row, whatever the index.
/// The lock token may be any word and the modulation token any text of
/// word characters and spaces: the row is locked where the token is
/// `Locked`, and its modulation is the one that the token stands for.
pub proof fn lemma_downstream_round_trip(
    index: nat,
    lock: Seq<char>,
    modulation: Seq<char>,
    channel: DownstreamChannel,
)
    requires
        lock.len() > 0,
        all_in(lock, CharClass::Word),
        modulation.len() > 0,
        all_in(modulation, CharClass::WordSpace),
    ensures
        channel_record(row_text(downstream_fields(index, lock, modulation, channel))) == Some(
            ChannelView::Downstream(
                DownstreamChannel {
                    lock_status: lock == "Locked"@,
                    modulation: Modulation::of_token(modulation),
                    ..channel
                },
            ),
        ),
{
    let p = downstream_pattern();
    let parts = downstream_fields(index, lock, modulation, channel);
    lemma_decimal_round_trip(index);
    lemma_decimal_round_trip(channel.channel_id as nat);
    lemma_decimal_round_trip(channel.frequency as nat);
    lemma_decimal_round_trip(channel.power as nat);
    lemma_decimal_round_trip(channel.snr as nat);
    lemma_decimal_round_trip(channel.corrected as nat);
    lemma_decimal_round_trip(channel.uncorrectables as nat);
    assert(p.len() == 18);
    assert(is_row_pattern(p)) by {
        assert forall|m: int| 1 <= m && 2 * m < p.len() implies (#[trigger] p[2 * m]) is Run by {
            assert(m == 1 || m == 2 || m == 3 || m == 4 || m == 5 || m == 6 || m == 7 || m == 8);
        }
        assert forall|m: int| 0 <= m && 2 * m + 1 < p.len() implies #[trigger] p[2 * m + 1]
            == Token::Lit('^') by {
            assert(m == 0 || m == 1 || m == 2 || m == 3 || m == 4 || m == 5 || m == 6 || m == 7
                || m == 8);
        }
    }
    assert forall|i: int| 0 <= i < parts.len() implies fits(#[trigger] p[2 * i], parts[i]) by {
        assert(i == 0 || i == 1 || i == 2 || i == 3 || i == 4 || i == 5 || i == 6 || i == 7 || i
            == 8);
    }
    lemma_row_pattern_separated(p);
    lemma_row_written(p, parts, 0);
    assert(parts.skip(0) =~= parts);
    lemma_first_match_written(p, parts);
    let c = parts.skip(1);
    assert(first_match(p, row_text(parts)) == Some(c));
    assert(c[0] == lock && c[1] == modulation);
}

/// A text of characters of one class holds no `^`.
pub proof fn lemma_no_caret(part: Seq<char>, class: CharClass)
    requires
        all_in(part, class),
    ensures
        count_char(part, '^') == 0,
    decreases part.len(),
{
    if part.len() > 0 {
        assert(class.has(part.last()));
        assert forall|i: int| 0 <= i < part.drop_last().len() implies class.has(
            #[trigger] part.drop_last()[i],
        ) by {
            assert(part.drop_last()[i] == part[i]);
        }
        lemma_no_caret(part.drop_last(), class);
    }
}

/// A row of fields without `^` holds as many `^` as it has fields.
pub proof fn lemma_row_carets(fields: Seq<Seq<char>>)
    requires
        forall|i: int| 0 <= i < fields.len() ==> count_char(#[trigger] fields[i], '^') == 0,
    ensures
        count_char(row_text(fields), '^') == fields.len(),
    decreases fields.len(),
{
    if fields.len() > 0 {
        let rest = fields.drop_first();
        assert forall|i: int| 0 <= i < rest.len() implies count_char(#[trigger] rest[i], '^')
            == 0 by {
            assert(rest[i] == fields[i + 1]);
        }
        lemma_row_carets(rest);
        assert(count_char(fields[0], '^') == 0);
        assert(count_char(seq!['^'], '^') == 1) by {
            assert(seq!['^'].drop_last() =~= Seq::<char>::empty());
            reveal_with_fuel(count_char, 2);
        }
        lemma_count_concat(fields.first(), seq!['^'], '^');
        lemma_count_concat(fields.first() + seq!['^'], row_text(rest), '^');
    }
}

/// The row of an upstream channel: the index, the lock token, the
/// modulation token, the three numbers and the power.
pub open spec fn upstream_fields(
    index: nat,
    lock: Seq<char>,
    modulation: Seq<char>,
    channel: UpstreamChannelView,
) -> Seq<Seq<char>> {
    seq![
        decimal_digits(index),
        lock,
        modulation,
        decimal_digits(channel.channel_id as nat),
        decimal_digits(channel.width as nat),
        decimal_digits(channel.frequency as nat),
        channel.power,
    ]
}

/// Every upstream channel is read back from its row, whatever the index:
/// the row is never taken for a downstream row. The modulation token may
/// also hold `-`, and the power is any decimal fraction made of digits and
/// at most one `.`.
pub proof fn lemma_upstream_round_trip(
    index: nat,
    lock: Seq<char>,
    modulation: Seq<char>,
    channel: UpstreamChannelView,
)
    requires
        lock.len() > 0,
        all_in(lock, CharClass::Word),
        modulation.len() > 0,
        all_in(modulation, CharClass::WordSpaceDash),
        all_in(channel.power, CharClass::DigitDot),
        is_decimal(channel.power),
    ensures
        channel_record(row_text(upstream_fields(index, lock, modulation, channel))) == Some(
            ChannelView::Upstream(
                UpstreamChannelView {
                    lock_status: lock == "Locked"@,
                    modulation: Modulation::of_token(modulation),
                    ..channel
                },
            ),
        ),
{
    let p = upstream_pattern();
    let parts = upstream_fields(index, lock, modulation, channel);
    let row = row_text(parts);
    lemma_decimal_round_trip(index);
    lemma_decimal_round_trip(channel.channel_id as nat);
    lemma_decimal_round_trip(channel.width as nat);
    lemma_decimal_round_trip(channel.frequency as nat);
    assert(first_match(downstream_pattern(), row) is None) by {
        assert forall|i: int| 0 <= i < parts.len() implies count_char(#[trigger] parts[i], '^')
            == 0 by {
            if i == 0 || i == 3 || i == 4 || i == 5 {
                lemma_no_caret(parts[i], CharClass::Digit);
            } else if i == 1 {
                lemma_no_caret(parts[i], CharClass::Word);
            } else if i == 2 {
                lemma_no_caret(parts[i], CharClass::WordSpaceDash);
            } else {
                lemma_no_caret(parts[i], CharClass::DigitDot);
            }
        }
        lemma_row_carets(parts);
        assert(literal_count(downstream_pattern(), 0, '^') == 9) by {
            reveal_with_fuel(literal_count, 19);
        }
        lemma_too_few_literals(downstream_pattern(), row, '^');
    }
    assert(p.len() == 14);
    assert(is_row_pattern(p)) by {
        assert forall|m: int| 1 <= m && 2 * m < p.len() implies (#[trigger] p[2 * m]) is Run by {
            assert(m == 1 || m == 2 || m == 3 || m == 4 || m == 5 || m == 6);
        }
        assert forall|m: int| 0 <= m && 2 * m + 1 < p.len() implies #[trigger] p[2 * m + 1]
            == Token::Lit('^') by {
            assert(m == 0 || m == 1 || m == 2 || m == 3 || m == 4 || m == 5 || m == 6);
        }
    }
    assert forall|i: int| 0 <= i < parts.len() implies fits(#[trigger] p[2 * i], parts[i]) by {
        assert(i == 0 || i == 1 || i == 2 || i == 3 || i == 4 || i == 5 || i == 6);
        assert(channel.power.len() > 0);
    }
    lemma_row_pattern_separated(p);
    lemma_row_written(p, parts, 0);
    assert(parts.skip(0) =~= parts);
    lemma_first_match_written(p, parts);
    let c = parts.skip(1);
    assert(first_match(p, row) == Some(c));
    assert(c[0] == lock && c[1] == modulation && c[5] == channel.power);
}

/// A row as it is written: the index of the row, the two tokens, and the
/// channel that gives the numbers.
pub struct WrittenRow {
    pub index: nat,
    pub lock: Seq<char>,
    pub modulation: Seq<char>,
    pub channel: ChannelView,
}

impl WrittenRow {
    /// Whether the tokens and the power can be written: the lock token is
    /// a word, the modulation token is made of word characters and spaces,
    /// in an upstream row also of `-`, and the power of an upstream row is a
    /// decimal fraction.
    pub open spec fn can_be_written(self) -> bool {
        &&& self.lock.len() > 0
        &&& all_in(self.lock, CharClass::Word)
        &&& self.modulation.len() > 0
        &&& match self.channel {
            ChannelView::Downstream(_) => all_in(self.modulation, CharClass::WordSpace),
            ChannelView::Upstream(u) => all_in(self.modulation, CharClass::WordSpaceDash)
                && all_in(u.power, CharClass::DigitDot) && is_decimal(u.power),
        }
    }

    /// The text of the row.
    pub open spec fn text(self) -> Seq<char> {
        match self.channel {
            ChannelView::Downstream(d) => row_text(
                downstream_fields(self.index, self.lock, self.modulation, d),
            ),
            ChannelView::Upstream(u) => row_text(
                upstream_fields(self.index, self.lock, self.modulation, u),
            ),
        }
    }

    /// The channel that the row states: the numbers of the channel, with
    /// the lock and the modulation as the tokens give them.
    pub open spec fn stated(self) -> ChannelView {
        match self.channel {
            ChannelView::Downstream(d) => ChannelView::Downstream(
                DownstreamChannel {
                    lock_status: self.lock == "Locked"@,
                    modulation: Modulation::of_token(self.modulation),
                    ..d
                },
            ),
            ChannelView::Upstream(u) => ChannelView::Upstream(
                UpstreamChannelView {
                    lock_status: self.lock == "Locked"@,
                    modulation: Modulation::of_token(self.modulation),
                    ..u
                },
            ),
        }
    }
}

/// The table that is written from rows.
pub open spec fn table_text(rows: Seq<WrittenRow>) -> Seq<char> {
    joined_with(Seq::new(rows.len(), |i: int| rows[i].text()), "|+|"@)
}

/// A text of characters of one class holds no `|`.
proof fn lemma_no_pipe(part: Seq<char>, class: CharClass)
    requires
        all_in(part, class),
    ensures
        free_of(part, '|'),
{
    assert forall|i: int| 0 <= i < part.len() implies #[trigger] part[i] != '|' by {
        assert(class.has(part[i]));
    }
}

/// A row of fields without `|` holds no `|`.
proof fn lemma_row_no_pipe(fields: Seq<Seq<char>>)
    requires
        forall|i: int| 0 <= i < fields.len() ==> free_of(#[trigger] fields[i], '|'),
    ensures
        free_of(row_text(fields), '|'),
    decreases fields.len(),
{
    if fields.len() > 0 {
        let rest = fields.drop_first();
        assert forall|i: int| 0 <= i < rest.len() implies free_of(#[trigger] rest[i], '|') by {
            assert(rest[i] == fields[i + 1]);
        }
        lemma_row_no_pipe(rest);
        assert(free_of(fields[0], '|'));
        let row = row_text(fields);
        assert forall|i: int| 0 <= i < row.len() implies #[trigger] row[i] != '|' by {
            if i < fields[0].len() {
                assert(row[i] == fields[0][i]);
            } else if i == fields[0].len() {
                assert(row[i] == '^');
            } else {
                assert(row[i] == row_text(rest)[i - fields[0].len() - 1]);
            }
        }
    }
}

/// A row that can be written holds no `|`.
proof fn lemma_written_row_no_pipe(row: WrittenRow)
    requires
        row.can_be_written(),
    ensures
        free_of(row.text(), '|'),
{
    lemma_decimal_round_trip(row.index);
    lemma_no_pipe(decimal_digits(row.index), CharClass::Digit);
    lemma_no_pipe(row.lock, CharClass::Word);
    match row.channel {
        ChannelView::Downstream(d) => {
            let fields = downstream_fields(row.index, row.lock, row.modulation, d);
            lemma_no_pipe(row.modulation, CharClass::WordSpace);
            lemma_decimal_round_trip(d.channel_id as nat);
            lemma_decimal_round_trip(d.frequency as nat);
            lemma_decimal_round_trip(d.power as nat);
            lemma_decimal_round_trip(d.snr as nat);
            lemma_decimal_round_trip(d.corrected as nat);
            lemma_decimal_round_trip(d.uncorrectables as nat);
            assert forall|i: int| 0 <= i < fields.len() implies free_of(
                #[trigger] fields[i],
                '|',
            ) by {
                if i >= 3 {
                    lemma_no_pipe(fields[i], CharClass::Digit);
                }
            }
            lemma_row_no_pipe(fields);
        },
        ChannelView::Upstream(u) => {
            let fields = upstream_fields(row.index, row.lock, row.modulation, u);
            lemma_no_pipe(row.modulation, CharClass::WordSpaceDash);
            lemma_no_pipe(u.power, CharClass::DigitDot);
            lemma_decimal_round_trip(u.channel_id as nat);
            lemma_decimal_round_trip(u.width as nat);
            lemma_decimal_round_trip(u.frequency as nat);
            assert forall|i: int| 0 <= i < fields.len() implies free_of(
                #[trigger] fields[i],
                '|',
            ) by {
                if 3 <= i < 6 {
                    lemma_no_pipe(fields[i], CharClass::Digit);
                }
            }
            lemma_row_no_pipe(fields);
        },
    }
}

/// Every table is read back from its text: a table that is written from
/// rows, whatever their number and kinds, decodes to the channels that the
/// rows state, in their order.
pub proof fn lemma_table_round_trip(rows: Seq<WrittenRow>)
    requires
        rows.len() > 0,
        forall|i: int| 0 <= i < rows.len() ==> (#[trigger] rows[i]).can_be_written(),
    ensures
        channel_lines(table_text(rows)) == Ok::<Seq<ChannelView>, Seq<char>>(
            Seq::new(rows.len(), |i: int| rows[i].stated()),
        ),
{
    let pieces = Seq::new(rows.len(), |i: int| rows[i].text());
    let channels = Seq::new(rows.len(), |i: int| rows[i].stated());
    reveal_strlit("|+|");
    assert forall|i: int| 0 <= i < pieces.len() implies cut_only_after(
        #[trigger] pieces[i],
        "|+|"@,
    ) by {
        lemma_written_row_no_pipe(rows[i]);
        lemma_free_of_cut(pieces[i], "|+|"@);
    }
    lemma_split_round_trip(pieces, "|+|"@);
    assert forall|i: int| 0 <= i < pieces.len() implies #[trigger] channel_decoder()(pieces[i])
        == Some(channels[i]) by {
        let row = rows[i];
        assert(row.can_be_written());
        match row.channel {
            ChannelView::Downstream(d) => {
                lemma_downstream_round_trip(row.index, row.lock, row.modulation, d);
            },
            ChannelView::Upstream(u) => {
                lemma_upstream_round_trip(row.index, row.lock, row.modulation, u);
            },
        }
    }
    lemma_decode_all(pieces, channel_decoder(), channels);
}

} // verus!
