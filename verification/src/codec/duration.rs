//! The up time, written as days, hours, minutes and seconds.

use crate::codec::malformed;
use crate::error::Error;
use crate::pattern::{
    all_fit, capture_count, find_match, first_match, kept_parts, lemma_first_match_count,
    lemma_first_match_written, lemma_written_literals, lemma_written_part, match_at, match_from,
    run_end, separated, written, CharClass, Token,
};
use crate::text::{
    chars_of, decimal_digits, decimal_value, is_number_up_to, joined, lemma_decimal_round_trip,
    lemma_joined, parse_number,
};
use vstd::prelude::*;

verus! {

/// `<D> days <H>h:<M>m:<S>s`, each of the four a run of digits.
pub open spec fn duration_pattern() -> Seq<Token> {
    seq![
        Token::Run(CharClass::Digit),
        Token::Lit(' '),
        Token::Lit('d'),
        Token::Lit('a'),
        Token::Lit('y'),
        Token::Lit('s'),
        Token::Lit(' '),
        Token::Run(CharClass::Digit),
        Token::Lit('h'),
        Token::Lit(':'),
        Token::Run(CharClass::Digit),
        Token::Lit('m'),
        Token::Lit(':'),
        Token::Run(CharClass::Digit),
        Token::Lit('s'),
    ]
}

fn duration_tokens() -> (pattern: Vec<Token>)
    ensures
        pattern@ == duration_pattern(),
{
    vec![
        Token::Run(CharClass::Digit),
        Token::Lit(' '),
        Token::Lit('d'),
        Token::Lit('a'),
        Token::Lit('y'),
        Token::Lit('s'),
        Token::Lit(' '),
        Token::Run(CharClass::Digit),
        Token::Lit('h'),
        Token::Lit(':'),
        Token::Run(CharClass::Digit),
        Token::Lit('m'),
        Token::Lit(':'),
        Token::Run(CharClass::Digit),
        Token::Lit('s'),
    ]
}

/// The seconds in `days` days, `hours` hours, `minutes` minutes and `seconds`
/// seconds.
pub open spec fn duration_seconds(days: nat, hours: nat, minutes: nat, seconds: nat) -> nat {
    days * 86400 + hours * 3600 + minutes * 60 + seconds
}

/// The up time in seconds that `s` states, `None` where `s` holds no text of
/// the shape `<D> days <H>h:<M>m:<S>s`, or one of the four numbers or their
/// sum in seconds is above what 64 bits hold.
pub open spec fn duration_of(s: Seq<char>) -> Option<nat> {
    match first_match(duration_pattern(), s) {
        Some(c) => {
            let total = duration_seconds(
                decimal_value(c[0]),
                decimal_value(c[1]),
                decimal_value(c[2]),
                decimal_value(c[3]),
            );
            if is_number_up_to(c[0], u64::MAX as nat) && is_number_up_to(c[1], u64::MAX as nat)
                && is_number_up_to(c[2], u64::MAX as nat) && is_number_up_to(c[3], u64::MAX as nat)
                && total <= u64::MAX {
                Some(total)
            } else {
                None
            }
        },
        None => None,
    }
}

fn duration_total(days: u64, hours: u64, minutes: u64, seconds: u64) -> (r: Option<u64>)
    ensures
        r is Some <==> duration_seconds(days as nat, hours as nat, minutes as nat, seconds as nat)
            <= u64::MAX,
        r matches Some(t) ==> t == duration_seconds(
            days as nat,
            hours as nat,
            minutes as nat,
            seconds as nat,
        ),
{
    let d = days.checked_mul(86400)?;
    let h = hours.checked_mul(3600)?;
    let m = minutes.checked_mul(60)?;
    let dh = d.checked_add(h)?;
    let dhm = dh.checked_add(m)?;
    dhm.checked_add(seconds)
}

/// Reads an up time of the shape `<D> days <H>h:<M>m:<S>s` as whole seconds.
pub fn duration_deserializer(s: &str) -> (r: Result<u64, Error>)
    ensures
        match duration_of(s@) {
            Some(n) => r == Ok::<u64, Error>(n as u64),
            None => r matches Err(e) && e.is_malformed(s@),
        },
{
    let chars = chars_of(s);
    let pattern = duration_tokens();
    proof {
        lemma_first_match_count(duration_pattern(), s@, 0);
        reveal_with_fuel(capture_count, 16);
        assert(capture_count(duration_pattern(), 0) == 4);
    }
    let caps = match find_match(&pattern, &chars) {
        Some(caps) => caps,
        None => { return Err(malformed(s)); },
    };
    let days = match parse_number(&caps[0], u64::MAX) {
        Some(v) => v,
        None => { return Err(malformed(s)); },
    };
    let hours = match parse_number(&caps[1], u64::MAX) {
        Some(v) => v,
        None => { return Err(malformed(s)); },
    };
    let minutes = match parse_number(&caps[2], u64::MAX) {
        Some(v) => v,
        None => { return Err(malformed(s)); },
    };
    let seconds = match parse_number(&caps[3], u64::MAX) {
        Some(v) => v,
        None => { return Err(malformed(s)); },
    };
    match duration_total(days, hours, minutes, seconds) {
        Some(total) => Ok(total),
        None => Err(malformed(s)),
    }
}

/// The reading `2 days 03h:04m:05s` states two days, three hours, four
/// minutes and five seconds: 183845 seconds.
pub proof fn lemma_duration_of_a_reading()
    ensures
        duration_of("2 days 03h:04m:05s"@) == Some(183845nat),
{
    reveal_strlit("2 days 03h:04m:05s");
    let s = "2 days 03h:04m:05s"@;
    let p = duration_pattern();
    let days = s.subrange(0, 1);
    let hours = s.subrange(7, 9);
    let minutes = s.subrange(11, 13);
    let seconds = s.subrange(15, 17);
    let c1 = seq![days];
    let c2 = c1.push(hours);
    let c3 = c2.push(minutes);
    let c4 = c3.push(seconds);
    assert(run_end(s, 0, CharClass::Digit) == 1 && run_end(s, 7, CharClass::Digit) == 9 && run_end(
        s,
        11,
        CharClass::Digit,
    ) == 13 && run_end(s, 15, CharClass::Digit) == 17) by {
        reveal_with_fuel(run_end, 4);
    }
    assert(p.len() == 15 && s.len() == 18);
    assert(match_from(p, 15, s, 18, c4) == Some(c4));
    assert(match_from(p, 14, s, 17, c4) == Some(c4));
    assert(match_from(p, 13, s, 15, c3) == Some(c4));
    assert(match_from(p, 12, s, 14, c3) == Some(c4));
    assert(match_from(p, 11, s, 13, c3) == Some(c4));
    assert(match_from(p, 10, s, 11, c2) == Some(c4));
    assert(match_from(p, 9, s, 10, c2) == Some(c4));
    assert(match_from(p, 8, s, 9, c2) == Some(c4));
    assert(match_from(p, 7, s, 7, c1) == Some(c4));
    assert(match_from(p, 6, s, 6, c1) == Some(c4));
    assert(match_from(p, 5, s, 5, c1) == Some(c4));
    assert(match_from(p, 4, s, 4, c1) == Some(c4));
    assert(match_from(p, 3, s, 3, c1) == Some(c4));
    assert(match_from(p, 2, s, 2, c1) == Some(c4));
    assert(match_from(p, 1, s, 1, c1) == Some(c4));
    assert(Seq::<Seq<char>>::empty().push(days) =~= c1);
    assert(match_at(p, s, 0) == Some(c4));
    assert(decimal_value(days) == 2 && decimal_value(hours) == 3 && decimal_value(minutes) == 4
        && decimal_value(seconds) == 5) by {
        reveal_with_fuel(decimal_value, 3);
        assert(days.drop_last() =~= Seq::empty());
        assert(hours.drop_last().drop_last() =~= Seq::empty());
        assert(minutes.drop_last().drop_last() =~= Seq::empty());
        assert(seconds.drop_last().drop_last() =~= Seq::empty());
    }
}

/// The reading that states an up time of so many days, hours, minutes and
/// seconds.
pub open spec fn duration_text(days: nat, hours: nat, minutes: nat, seconds: nat) -> Seq<char> {
    decimal_digits(days) + " days "@ + decimal_digits(hours) + "h:"@ + decimal_digits(minutes)
        + "m:"@ + decimal_digits(seconds) + "s"@
}

/// The four numbers of a reading as the parts of the pattern.
pub open spec fn duration_parts(days: nat, hours: nat, minutes: nat, seconds: nat) -> Seq<
    Seq<char>,
> {
    seq![
        decimal_digits(days),
        decimal_digits(hours),
        decimal_digits(minutes),
        decimal_digits(seconds),
    ]
}

proof fn lemma_duration_pattern_separated()
    ensures
        separated(duration_pattern()),
{
    let p = duration_pattern();
    assert forall|k: int| 0 <= k < p.len() implies match #[trigger] p[k] {
        Token::Run(class) => k + 1 < p.len() ==> (p[k + 1] matches Token::Lit(c) && !class.has(c)),
        Token::Skip(class) => k + 1 < p.len() ==> (p[k + 1] matches Token::Lit(c) && !class.has(
            c,
        )),
        Token::Rest => k + 1 == p.len(),
        _ => true,
    } by {
        if k == 0 {
            assert(p[1] == Token::Lit(' '));
        } else if k == 7 {
            assert(p[8] == Token::Lit('h'));
        } else if k == 10 {
            assert(p[11] == Token::Lit('m'));
        } else if k == 13 {
            assert(p[14] == Token::Lit('s'));
        }
    }
}

proof fn lemma_duration_parts_fit(days: nat, hours: nat, minutes: nat, seconds: nat)
    ensures
        all_fit(duration_pattern(), 0, duration_parts(days, hours, minutes, seconds), 0),
        kept_parts(duration_pattern(), 0, duration_parts(days, hours, minutes, seconds), 0)
            == duration_parts(days, hours, minutes, seconds),
{
    let p = duration_pattern();
    let parts = duration_parts(days, hours, minutes, seconds);
    lemma_decimal_round_trip(days);
    lemma_decimal_round_trip(hours);
    lemma_decimal_round_trip(minutes);
    lemma_decimal_round_trip(seconds);
    assert(p.len() == 15);
    assert(all_fit(p, 15, parts, 4));
    assert(all_fit(p, 13, parts, 3)) by {
        reveal_with_fuel(all_fit, 3);
    }
    assert(all_fit(p, 10, parts, 2)) by {
        reveal_with_fuel(all_fit, 4);
    }
    assert(all_fit(p, 7, parts, 1)) by {
        reveal_with_fuel(all_fit, 4);
    }
    assert(all_fit(p, 0, parts, 0)) by {
        reveal_with_fuel(all_fit, 8);
    }
    assert(kept_parts(p, 15, parts, 4) =~= Seq::empty());
    assert(kept_parts(p, 13, parts, 3) =~= seq![parts[3]]) by {
        reveal_with_fuel(kept_parts, 3);
    }
    assert(kept_parts(p, 10, parts, 2) =~= seq![parts[2], parts[3]]) by {
        reveal_with_fuel(kept_parts, 4);
    }
    assert(kept_parts(p, 7, parts, 1) =~= seq![parts[1], parts[2], parts[3]]) by {
        reveal_with_fuel(kept_parts, 4);
    }
    assert(kept_parts(p, 0, parts, 0) =~= parts) by {
        reveal_with_fuel(kept_parts, 8);
    }
}

proof fn lemma_duration_written(days: nat, hours: nat, minutes: nat, seconds: nat)
    ensures
        written(duration_pattern(), 0, duration_parts(days, hours, minutes, seconds), 0)
            == duration_text(days, hours, minutes, seconds),
{
    let p = duration_pattern();
    let parts = duration_parts(days, hours, minutes, seconds);
    assert(p.len() == 15);
    lemma_written_part(p, 0, parts, 0);
    assert(written(p, 1, parts, 1) == " days "@ + written(p, 7, parts, 1)) by {
        reveal_strlit(" days ");
        lemma_written_literals(p, 1, parts, 1, " days "@);
    }
    lemma_written_part(p, 7, parts, 1);
    assert(written(p, 8, parts, 2) == "h:"@ + written(p, 10, parts, 2)) by {
        reveal_strlit("h:");
        lemma_written_literals(p, 8, parts, 2, "h:"@);
    }
    lemma_written_part(p, 10, parts, 2);
    assert(written(p, 11, parts, 3) == "m:"@ + written(p, 13, parts, 3)) by {
        reveal_strlit("m:");
        lemma_written_literals(p, 11, parts, 3, "m:"@);
    }
    lemma_written_part(p, 13, parts, 3);
    assert(written(p, 14, parts, 4) == "s"@ + written(p, 15, parts, 4)) by {
        reveal_strlit("s");
        lemma_written_literals(p, 14, parts, 4, "s"@);
    }
    assert(written(p, 15, parts, 4) =~= Seq::empty());
    lemma_joined(
        seq![parts[0], " days "@, parts[1], "h:"@, parts[2], "m:"@, parts[3], "s"@],
        seq![
            written(p, 0, parts, 0),
            written(p, 1, parts, 1),
            written(p, 7, parts, 1),
            written(p, 8, parts, 2),
            written(p, 10, parts, 2),
            written(p, 11, parts, 3),
            written(p, 13, parts, 3),
            written(p, 14, parts, 4),
            written(p, 15, parts, 4),
        ],
    );
    assert(duration_text(days, hours, minutes, seconds) == joined(
        seq![parts[0], " days "@, parts[1], "h:"@, parts[2], "m:"@, parts[3], "s"@],
    )) by {
        reveal_with_fuel(joined, 9);
    }
}

/// Every up time that fits into 64 bits is read back from its reading.
pub proof fn lemma_duration_round_trip(days: nat, hours: nat, minutes: nat, seconds: nat)
    requires
        duration_seconds(days, hours, minutes, seconds) <= u64::MAX,
    ensures
        duration_of(duration_text(days, hours, minutes, seconds)) == Some(
            duration_seconds(days, hours, minutes, seconds),
        ),
{
    lemma_decimal_round_trip(days);
    lemma_decimal_round_trip(hours);
    lemma_decimal_round_trip(minutes);
    lemma_decimal_round_trip(seconds);
    lemma_duration_pattern_separated();
    lemma_duration_parts_fit(days, hours, minutes, seconds);
    lemma_duration_written(days, hours, minutes, seconds);
    lemma_first_match_written(duration_pattern(), duration_parts(days, hours, minutes, seconds));
}

} // verus!
